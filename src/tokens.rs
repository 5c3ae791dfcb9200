use vstd::prelude::*;
use crate::conversation::{Message, MessageView, views};

verus! {

/// The number of cl100k tokens that the ordinary (no special tokens)
/// encoding of a text yields.
pub uninterp spec fn cl100k_len(text: Seq<char>) -> nat;

/// The longest text, in characters, that is handed to the tokenizer. Its
/// regex engine keeps at most 1,000,000 backtrack entries and performs at
/// most 1,000,000 backtracks in one match, and a run of whitespace costs a
/// few of each per character; past those limits the tokenizer panics. This
/// bound keeps every text well inside them.
pub const MAX_COUNTED_CHARS: usize = 250000;

/// Every message is short enough to be counted.
pub open spec fn countable(s: Seq<MessageView>) -> bool {
    forall|i: int| 0 <= i < s.len() ==> #[trigger] s[i].content.len() <= MAX_COUNTED_CHARS
}

/// Relies on tiktoken_rs::cl100k_base_singleton, the process-wide table loaded
/// once on first use, and CoreBPE::encode_ordinary: the length of the encoding
/// depends on the text alone, and an empty text has no tokens. The first
/// panics if the table cannot be loaded, which ends the program as a failed
/// start should; the second cannot fail on a text within
/// `MAX_COUNTED_CHARS`.
#[verifier::external_body]
fn encoded_len(text: &str) -> (r: usize)
    requires
        text@.len() <= MAX_COUNTED_CHARS,
    ensures
        r as nat == cl100k_len(text@),
        text@.len() == 0 ==> r == 0,
{
    tiktoken_rs::cl100k_base_singleton().encode_ordinary(text).len()
}

/// The number of tokens of one text.
pub fn count_text_tokens(text: &str) -> (r: usize)
    requires
        text@.len() <= MAX_COUNTED_CHARS,
    ensures
        r as nat == cl100k_len(text@),
{
    encoded_len(text)
}

/// Whether every message is short enough to be counted.
pub fn all_countable(messages: &[Message]) -> (r: bool)
    ensures
        r == countable(views(messages@)),
{
    let ghost vs = views(messages@);
    let mut i: usize = 0;
    while i < messages.len()
        invariant
            i <= messages@.len() == vs.len(),
            vs == views(messages@),
            forall|j: int| 0 <= j < i ==> #[trigger] vs[j].content.len() <= MAX_COUNTED_CHARS,
        decreases messages.len() - i,
    {
        if messages[i].content.as_str().unicode_len() > MAX_COUNTED_CHARS {
            assert(vs[i as int].content.len() > MAX_COUNTED_CHARS);
            return false;
        }
        i = i + 1;
    }
    true
}

/// Total tokens of the contents of a sequence of messages.
pub open spec fn tokens_of(s: Seq<MessageView>) -> nat
    decreases s.len(),
{
    if s.len() == 0 {
        0
    } else {
        cl100k_len(s[0].content) + tokens_of(s.drop_first())
    }
}

/// Adding one message in front of a suffix adds its token count.
pub proof fn lemma_tokens_extend_suffix(s: Seq<MessageView>, k: int)
    requires
        0 < k <= s.len(),
    ensures
        tokens_of(s.subrange(k - 1, s.len() as int)) == cl100k_len(s[k - 1].content) + tokens_of(
            s.subrange(k, s.len() as int),
        ),
{
    assert(s.subrange(k - 1, s.len() as int).drop_first() =~= s.subrange(k, s.len() as int));
}

/// A longer suffix never has fewer tokens.
pub proof fn lemma_tokens_suffix_monotone(s: Seq<MessageView>, i: int, j: int)
    requires
        0 <= i <= j <= s.len(),
    ensures
        tokens_of(s.subrange(j, s.len() as int)) <= tokens_of(s.subrange(i, s.len() as int)),
    decreases j - i,
{
    if i < j {
        lemma_tokens_suffix_monotone(s, i + 1, j);
        lemma_tokens_extend_suffix(s, i + 1);
    }
}

/// Total tokens of a message list, saturating at the largest `usize`.
pub fn count_tokens(conversation_history: &[Message]) -> (r: usize)
    requires
        countable(views(conversation_history@)),
    ensures
        r as int == if tokens_of(views(conversation_history@)) <= usize::MAX as nat {
            tokens_of(views(conversation_history@)) as int
        } else {
            usize::MAX as int
        },
{
    let n = conversation_history.len();
    let ghost vs = views(conversation_history@);
    let mut total: usize = 0;
    let mut k: usize = n;
    assert(vs.subrange(n as int, n as int) =~= Seq::<MessageView>::empty());
    while k > 0
        invariant
            k <= n == conversation_history@.len() == vs.len(),
            vs == views(conversation_history@),
            countable(vs),
            total as int == if tokens_of(vs.subrange(k as int, n as int)) <= usize::MAX as nat {
                tokens_of(vs.subrange(k as int, n as int)) as int
            } else {
                usize::MAX as int
            },
        decreases k,
    {
        assert(vs[k - 1].content.len() <= MAX_COUNTED_CHARS);
        let t = encoded_len(conversation_history[k - 1].content.as_str());
        proof {
            lemma_tokens_extend_suffix(vs, k as int);
        }
        total = total.saturating_add(t);
        k = k - 1;
    }
    assert(vs.subrange(0, n as int) =~= vs);
    total
}

} // verus!
