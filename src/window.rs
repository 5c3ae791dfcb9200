use vstd::prelude::*;
use crate::conversation::{Message, MessageView, views};
use crate::tokens::{
    cl100k_len, count_tokens, count_text_tokens, countable, tokens_of,
    lemma_tokens_extend_suffix, lemma_tokens_suffix_monotone, MAX_COUNTED_CHARS,
};

verus! {

/// Where the window of `h` under `budget` starts, scanning back from `k`:
/// the earliest start that the newest-first scan reaches without the
/// suffix going over the budget.
pub open spec fn window_start(h: Seq<MessageView>, budget: nat, k: int) -> int
    decreases k,
{
    if k <= 0 {
        0
    } else if tokens_of(h.subrange(k - 1, h.len() as int)) > budget {
        k
    } else {
        window_start(h, budget, k - 1)
    }
}

/// The longest suffix of `h` whose tokens fit in `budget`.
pub open spec fn window(h: Seq<MessageView>, budget: nat) -> Seq<MessageView> {
    h.subrange(window_start(h, budget, h.len() as int), h.len() as int)
}

proof fn lemma_window_start_bounds(h: Seq<MessageView>, budget: nat, k: int)
    requires
        0 <= k <= h.len(),
        tokens_of(h.subrange(k, h.len() as int)) <= budget,
    ensures
        0 <= window_start(h, budget, k) <= k,
        tokens_of(h.subrange(window_start(h, budget, k), h.len() as int)) <= budget,
        window_start(h, budget, k) == 0 || tokens_of(
            h.subrange(window_start(h, budget, k) - 1, h.len() as int),
        ) > budget,
    decreases k,
{
    if k > 0 && tokens_of(h.subrange(k - 1, h.len() as int)) <= budget {
        lemma_window_start_bounds(h, budget, k - 1);
    }
}

/// The window's tokens fit in the budget, and it is empty only when the
/// conversation is empty or its newest message alone exceeds the budget.
pub proof fn lemma_window_within_budget(h: Seq<MessageView>, budget: nat)
    ensures
        tokens_of(window(h, budget)) <= budget,
        window(h, budget).len() == 0 && h.len() > 0 ==> cl100k_len(h.last().content) > budget,
{
    let n = h.len() as int;
    assert(h.subrange(n, n) =~= Seq::<MessageView>::empty());
    lemma_window_start_bounds(h, budget, n);
    if window(h, budget).len() == 0 && n > 0 {
        lemma_tokens_extend_suffix(h, n);
    }
}

/// The window is a contiguous tail of the conversation, in its order.
pub proof fn lemma_window_is_suffix(h: Seq<MessageView>, budget: nat)
    ensures
        window(h, budget).len() <= h.len(),
        window(h, budget) == h.subrange(h.len() - window(h, budget).len(), h.len() as int),
{
    let n = h.len() as int;
    assert(h.subrange(n, n) =~= Seq::<MessageView>::empty());
    lemma_window_start_bounds(h, budget, n);
}

/// No longer tail of the conversation fits in the budget: the window is the
/// longest suffix that does.
pub proof fn lemma_window_is_longest(h: Seq<MessageView>, budget: nat, k: int)
    requires
        0 <= k < window_start(h, budget, h.len() as int),
    ensures
        tokens_of(h.subrange(k, h.len() as int)) > budget,
{
    let n = h.len() as int;
    assert(h.subrange(n, n) =~= Seq::<MessageView>::empty());
    lemma_window_start_bounds(h, budget, n);
    let w = window_start(h, budget, n);
    lemma_tokens_suffix_monotone(h, k, w - 1);
}

/// A conversation whose tokens already fit is its own window.
pub proof fn lemma_window_keeps_fitting(h: Seq<MessageView>, budget: nat)
    requires
        tokens_of(h) <= budget,
    ensures
        window(h, budget) == h,
{
    let n = h.len() as int;
    assert(h.subrange(n, n) =~= Seq::<MessageView>::empty());
    assert(h.subrange(0, n) =~= h);
    lemma_window_start_bounds(h, budget, n);
    let k = window_start(h, budget, n);
    if k > 0 {
        lemma_tokens_suffix_monotone(h, 0, k - 1);
    }
}

/// Copies of the messages of `h` from index `k` on, in order.
pub(crate) fn copy_suffix(h: &[Message], k: usize) -> (r: Vec<Message>)
    requires
        k <= h@.len(),
    ensures
        views(r@) == views(h@).subrange(k as int, h@.len() as int),
{
    let n = h.len();
    let ghost vs = views(h@);
    let mut copied: Vec<Message> = Vec::new();
    let mut i: usize = k;
    assert(views(copied@) =~= vs.subrange(k as int, k as int));
    while i < n
        invariant
            k <= i <= n == h@.len() == vs.len(),
            vs == views(h@),
            views(copied@) == vs.subrange(k as int, i as int),
        decreases n - i,
    {
        let m = h[i].duplicate();
        let ghost before = copied@;
        copied.push(m);
        proof {
            assert(views(copied@) =~= views(before).push(m@));
            assert(views(copied@) =~= vs.subrange(k as int, i + 1));
        }
        i = i + 1;
    }
    copied
}

/// Keeps the newest messages whose tokens together fit in `max_tokens`,
/// dropping the oldest ones; the result is in chronological order.
pub fn truncate_conversation(conversation_history: &[Message], max_tokens: usize) -> (r: Vec<
    Message,
>)
    requires
        countable(views(conversation_history@)),
    ensures
        views(r@) == window(views(conversation_history@), max_tokens as nat),
{
    let n = conversation_history.len();
    let ghost vs = views(conversation_history@);
    let mut total: usize = 0;
    let mut k: usize = n;
    assert(vs.subrange(n as int, n as int) =~= Seq::<MessageView>::empty());
    while k > 0
        invariant
            k <= n == conversation_history@.len() == vs.len(),
            vs == views(conversation_history@),
            countable(vs),
            total as nat == tokens_of(vs.subrange(k as int, n as int)),
            total <= max_tokens,
            window_start(vs, max_tokens as nat, n as int) == window_start(
                vs,
                max_tokens as nat,
                k as int,
            ),
        ensures
            window_start(vs, max_tokens as nat, k as int) == k,
        decreases k,
    {
        assert(vs[k - 1].content.len() <= MAX_COUNTED_CHARS);
        let tokens = count_text_tokens(conversation_history[k - 1].content.as_str());
        proof {
            lemma_tokens_extend_suffix(vs, k as int);
        }
        if tokens > max_tokens - total {
            break;
        }
        total = total + tokens;
        k = k - 1;
    }
    copy_suffix(conversation_history, k)
}

/// The messages to send under `max_tokens`: the whole history when it fits,
/// else its truncation.
pub fn request_window(conversation_history: &[Message], max_tokens: usize) -> (r: Vec<Message>)
    requires
        countable(views(conversation_history@)),
    ensures
        views(r@) == window(views(conversation_history@), max_tokens as nat),
{
    let total_tokens = count_tokens(conversation_history);
    // A saturated count tells nothing about the budget: truncate then.
    if total_tokens == usize::MAX || total_tokens > max_tokens {
        truncate_conversation(conversation_history, max_tokens)
    } else {
        let r = copy_suffix(conversation_history, 0);
        proof {
            lemma_window_keeps_fitting(views(conversation_history@), max_tokens as nat);
            assert(views(conversation_history@).subrange(0, conversation_history@.len() as int)
                =~= views(conversation_history@));
        }
        r
    }
}

} // verus!
