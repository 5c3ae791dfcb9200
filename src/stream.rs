use vstd::prelude::*;
use crate::text::{decode_lossy, json_string_at, string_at_path, trim_text, trimmed, utf8_lossy};

verus! {

/// The text fragment of a streamed completion event sits at
/// `choices[0].delta.content`.
pub const CHOICES_KEY: &'static str = "choices";

pub const CHOICE_INDEX: usize = 0;

pub const DELTA_KEY: &'static str = "delta";

pub const CONTENT_KEY: &'static str = "content";

/// `data: `, the marker that starts an event line.
pub open spec fn data_prefix() -> Seq<u8> {
    seq![100u8, 97u8, 116u8, 97u8, 58u8, 32u8]
}

/// `[DONE]`, the payload that ends the stream.
pub open spec fn done_marker() -> Seq<u8> {
    seq![91u8, 68u8, 79u8, 78u8, 69u8, 93u8]
}

/// What one line of the stream means.
pub ghost enum LineEvent {
    Ignored,
    Finished,
    Fragment(Seq<char>),
}

/// The meaning of one line: an event only behind the `data: ` marker; the
/// termination marker, or a payload whose text fragment is found at
/// `choices[0].delta.content`; anything else is ignored.
pub open spec fn line_event(line: Seq<u8>) -> LineEvent {
    if line.len() >= 6 && line.subrange(0, 6) == data_prefix() {
        let rest = line.subrange(6, line.len() as int);
        if rest == done_marker() {
            LineEvent::Finished
        } else {
            match json_string_at(
                utf8_lossy(rest),
                CHOICES_KEY@,
                CHOICE_INDEX as nat,
                DELTA_KEY@,
                CONTENT_KEY@,
            ) {
                Some(c) => LineEvent::Fragment(c),
                None => LineEvent::Ignored,
            }
        }
    } else {
        LineEvent::Ignored
    }
}

/// The line ending at `end`, without the carriage return of a `\r\n` ending.
pub open spec fn line_between(s: Seq<u8>, start: int, end: int) -> Seq<u8> {
    if start < end && s[end - 1] == 13u8 {
        s.subrange(start, end - 1)
    } else {
        s.subrange(start, end)
    }
}

/// The lines of `s` from the line that starts at `start`, scanning on from `i`:
/// split at each `\n` (a `\r\n` ending loses its `\r`), with no empty line
/// after a final `\n`.
pub open spec fn lines_from(s: Seq<u8>, start: int, i: int) -> Seq<Seq<u8>>
    decreases s.len() - i,
{
    if i >= s.len() {
        if start < s.len() {
            seq![s.subrange(start, s.len() as int)]
        } else {
            seq![]
        }
    } else if s[i] == 10u8 {
        seq![line_between(s, start, i)] + lines_from(s, i + 1, i + 1)
    } else {
        lines_from(s, start, i + 1)
    }
}

/// The lines of a chunk.
pub open spec fn chunk_lines(s: Seq<u8>) -> Seq<Seq<u8>> {
    lines_from(s, 0, 0)
}

/// The state of a decoder: the reply so far, and whether the stream ended.
pub ghost struct DecoderView {
    pub reply: Seq<char>,
    pub done: bool,
}

/// One event applied to a decoder; nothing changes once it is done.
pub open spec fn step(d: DecoderView, e: LineEvent) -> DecoderView {
    if d.done {
        d
    } else {
        match e {
            LineEvent::Ignored => d,
            LineEvent::Finished => DecoderView { reply: d.reply, done: true },
            LineEvent::Fragment(c) => DecoderView { reply: d.reply + c, done: false },
        }
    }
}

/// The fragment that one event hands out for display, as a sequence of
/// zero or one fragments.
pub open spec fn emitted(d: DecoderView, e: LineEvent) -> Seq<Seq<char>> {
    if !d.done && e is Fragment {
        seq![e->Fragment_0]
    } else {
        seq![]
    }
}

/// The decoder after the lines, in order.
pub open spec fn run(d: DecoderView, lines: Seq<Seq<u8>>) -> DecoderView
    decreases lines.len(),
{
    if lines.len() == 0 {
        d
    } else {
        run(step(d, line_event(lines[0])), lines.drop_first())
    }
}

/// The fragments handed out while the lines are decoded, in order.
pub open spec fn fragments(d: DecoderView, lines: Seq<Seq<u8>>) -> Seq<Seq<char>>
    decreases lines.len(),
{
    if lines.len() == 0 {
        seq![]
    } else {
        let e = line_event(lines[0]);
        emitted(d, e) + fragments(step(d, e), lines.drop_first())
    }
}

/// The decoder after the chunks, in order.
pub open spec fn run_chunks(d: DecoderView, chunks: Seq<Seq<u8>>) -> DecoderView
    decreases chunks.len(),
{
    if chunks.len() == 0 {
        d
    } else {
        run_chunks(run(d, chunk_lines(chunks[0])), chunks.drop_first())
    }
}

/// The state at the start of a stream.
pub open spec fn fresh() -> DecoderView {
    DecoderView { reply: seq![], done: false }
}

/// One decoded line, as an executable value.
pub enum StreamEvent {
    Ignored,
    Finished,
    Fragment(String),
}

impl View for StreamEvent {
    type V = LineEvent;

    open spec fn view(&self) -> LineEvent {
        match self {
            StreamEvent::Ignored => LineEvent::Ignored,
            StreamEvent::Finished => LineEvent::Finished,
            StreamEvent::Fragment(s) => LineEvent::Fragment(s@),
        }
    }
}

fn has_data_prefix(line: &[u8]) -> (r: bool)
    ensures
        r == (line@.len() >= 6 && line@.subrange(0, 6) == data_prefix()),
{
    let r = line.len() >= 6 && line[0] == 100u8 && line[1] == 97u8 && line[2] == 116u8 && line[3]
        == 97u8 && line[4] == 58u8 && line[5] == 32u8;
    proof {
        if line@.len() >= 6 {
            if r {
                assert(line@.subrange(0, 6) =~= data_prefix());
            } else if line@.subrange(0, 6) == data_prefix() {
                assert(line@.subrange(0, 6)[0] == line@[0]);
                assert(line@.subrange(0, 6)[5] == line@[5]);
            }
        }
    }
    r
}

fn is_done_marker(rest: &[u8]) -> (r: bool)
    ensures
        r == (rest@ == done_marker()),
{
    let r = rest.len() == 6 && rest[0] == 91u8 && rest[1] == 68u8 && rest[2] == 79u8 && rest[3]
        == 78u8 && rest[4] == 69u8 && rest[5] == 93u8;
    proof {
        if r {
            assert(rest@ =~= done_marker());
        } else if rest@ == done_marker() {
            assert(rest@.len() == 6);
            assert(rest@[0] == done_marker()[0]);
        }
    }
    r
}

/// The event that one line of the stream carries.
pub fn line_event_of(line: &[u8]) -> (r: StreamEvent)
    ensures
        r@ == line_event(line@),
{
    if !has_data_prefix(line) {
        return StreamEvent::Ignored;
    }
    let rest = &line[6..line.len()];
    if is_done_marker(rest) {
        return StreamEvent::Finished;
    }
    let payload = decode_lossy(rest);
    match string_at_path(payload.as_str(), CHOICES_KEY, CHOICE_INDEX, DELTA_KEY, CONTENT_KEY) {
        Some(c) => StreamEvent::Fragment(c),
        None => StreamEvent::Ignored,
    }
}

/// Once the stream has ended, no further line changes the decoder or hands
/// out a fragment.
pub proof fn lemma_done_absorbs(d: DecoderView, lines: Seq<Seq<u8>>)
    requires
        d.done,
    ensures
        run(d, lines) == d,
        fragments(d, lines) == Seq::<Seq<char>>::empty(),
    decreases lines.len(),
{
    if lines.len() > 0 {
        lemma_done_absorbs(d, lines.drop_first());
        assert(emitted(d, line_event(lines[0])) + fragments(d, lines.drop_first()) =~= seq![]);
    }
}

/// Chunks that arrive after the termination marker change nothing.
pub proof fn lemma_done_ignores_chunks(d: DecoderView, chunks: Seq<Seq<u8>>)
    requires
        d.done,
    ensures
        run_chunks(d, chunks) == d,
    decreases chunks.len(),
{
    if chunks.len() > 0 {
        lemma_done_absorbs(d, chunk_lines(chunks[0]));
        lemma_done_ignores_chunks(d, chunks.drop_first());
    }
}

/// The reply grows by exactly the fragments handed out, in order.
pub proof fn lemma_reply_is_fragments(d: DecoderView, lines: Seq<Seq<u8>>)
    ensures
        run(d, lines).reply == d.reply + fragments(d, lines).flatten(),
    decreases lines.len(),
{
    if lines.len() == 0 {
        assert(d.reply + fragments(d, lines).flatten() =~= d.reply);
    } else {
        let e = line_event(lines[0]);
        let d2 = step(d, e);
        lemma_reply_is_fragments(d2, lines.drop_first());
        vstd::seq_lib::lemma_flatten_concat(emitted(d, e), fragments(d2, lines.drop_first()));
        if !d.done && e is Fragment {
            assert(emitted(d, e).flatten() =~= e->Fragment_0) by {
                emitted(d, e).lemma_flatten_one_element();
            }
        } else {
            assert(emitted(d, e).flatten() =~= seq![]);
        }
        assert(run(d, lines).reply =~= d.reply + fragments(d, lines).flatten());
    }
}

/// A line that carries no event (not an event line, or a payload that does
/// not parse or has no text fragment) leaves the outcome of the lines around
/// it as if it were not there.
pub proof fn lemma_ignored_line_is_invisible(
    d: DecoderView,
    before: Seq<Seq<u8>>,
    line: Seq<u8>,
    after: Seq<Seq<u8>>,
)
    requires
        line_event(line) == LineEvent::Ignored,
    ensures
        run(d, before + seq![line] + after) == run(d, before + after),
        fragments(d, before + seq![line] + after) == fragments(d, before + after),
    decreases before.len(),
{
    if before.len() == 0 {
        assert(before + seq![line] + after =~= seq![line] + after);
        assert((seq![line] + after).drop_first() =~= after);
        assert(before + after =~= after);
        assert(emitted(d, LineEvent::Ignored) =~= seq![]);
    } else {
        let e = line_event(before[0]);
        lemma_ignored_line_is_invisible(step(d, e), before.drop_first(), line, after);
        assert((before + seq![line] + after).drop_first() =~= before.drop_first() + seq![line]
            + after);
        assert((before + after).drop_first() =~= before.drop_first() + after);
        assert((before + seq![line] + after)[0] == before[0]);
        assert((before + after)[0] == before[0]);
    }
}

/// A decoder of a response stream: it collects the text fragments of the
/// events until the termination marker or the end of the stream.
pub struct StreamDecoder {
    reply: String,
    done: bool,
}

impl View for StreamDecoder {
    type V = DecoderView;

    closed spec fn view(&self) -> DecoderView {
        DecoderView { reply: self.reply@, done: self.done }
    }
}

impl StreamDecoder {
    pub fn new() -> (r: StreamDecoder)
        ensures
            r@ == fresh(),
    {
        StreamDecoder { reply: String::new(), done: false }
    }

    /// Whether the termination marker has been seen.
    pub fn is_done(&self) -> (r: bool)
        ensures
            r == self@.done,
    {
        self.done
    }

    /// Applies one event; returns the fragment to show, if it brought one.
    pub fn apply(&mut self, event: StreamEvent) -> (r: Option<String>)
        ensures
            final(self)@ == step(old(self)@, event@),
            r is Some == (!old(self)@.done && event@ is Fragment),
            r matches Some(c) ==> c@ == event@->Fragment_0,
    {
        if self.done {
            return None;
        }
        match event {
            StreamEvent::Ignored => None,
            StreamEvent::Finished => {
                self.done = true;
                None
            },
            StreamEvent::Fragment(c) => {
                self.reply.append(c.as_str());
                Some(c)
            },
        }
    }

    /// Decodes the lines of one chunk; returns the fragments to show, in
    /// order. After the termination marker nothing more is read.
    pub fn feed_chunk(&mut self, chunk: &[u8]) -> (r: Vec<String>)
        ensures
            final(self)@ == run(old(self)@, chunk_lines(chunk@)),
            r@.map_values(|c: String| c@) == fragments(old(self)@, chunk_lines(chunk@)),
    {
        let ghost s = chunk@;
        let ghost all = chunk_lines(s);
        let mut shown: Vec<String> = Vec::new();
        if self.done {
            proof {
                lemma_done_absorbs(self@, all);
                assert(shown@.map_values(|c: String| c@) =~= seq![]);
            }
            return shown;
        }
        let n = chunk.len();
        let mut start: usize = 0;
        let mut i: usize = 0;
        while i < n
            invariant
                start <= i <= n == s.len(),
                s == chunk@,
                all == chunk_lines(s),
                run(old(self)@, all) == run(self@, lines_from(s, start as int, i as int)),
                fragments(old(self)@, all) == shown@.map_values(|c: String| c@) + fragments(
                    self@,
                    lines_from(s, start as int, i as int),
                ),
            decreases n - i,
        {
            if chunk[i] == 10u8 {
                let end: usize = if start < i && chunk[i - 1] == 13u8 {
                    i - 1
                } else {
                    i
                };
                let line = &chunk[start..end];
                let ghost before = self@;
                let ghost prev = shown@;
                let ghost rest = lines_from(s, (i + 1) as int, (i + 1) as int);
                assert(line@ == line_between(s, start as int, i as int));
                let event = line_event_of(line);
                let out = self.apply(event);
                proof {
                    let ls = lines_from(s, start as int, i as int);
                    assert(ls == seq![line@] + rest);
                    assert(ls[0] == line@);
                    assert(ls.drop_first() =~= rest);
                }
                match out {
                    Some(c) => {
                        shown.push(c);
                    },
                    None => {},
                }
                proof {
                    assert(shown@.map_values(|c: String| c@) =~= prev.map_values(|c: String| c@)
                        + emitted(before, line_event(line@)));
                    assert(fragments(old(self)@, all) =~= shown@.map_values(|c: String| c@)
                        + fragments(self@, rest));
                }
                start = i + 1;
                if self.done {
                    proof {
                        lemma_done_absorbs(self@, rest);
                        assert(fragments(old(self)@, all) =~= shown@.map_values(|c: String| c@));
                    }
                    return shown;
                }
            }
            i = i + 1;
        }
        if start < n {
            let line = &chunk[start..n];
            let ghost before = self@;
            let ghost prev = shown@;
            proof {
                let ls = lines_from(s, start as int, n as int);
                assert(ls == seq![line@]);
                assert(ls.drop_first() =~= seq![]);
            }
            let event = line_event_of(line);
            let out = self.apply(event);
            match out {
                Some(c) => {
                    shown.push(c);
                },
                None => {},
            }
            proof {
                let ls = lines_from(s, start as int, n as int);
                assert(fragments(self@, ls.drop_first()) =~= seq![]);
                assert(run(self@, ls.drop_first()) == self@);
                assert(shown@.map_values(|c: String| c@) =~= prev.map_values(|c: String| c@)
                    + emitted(before, line_event(line@)));
                assert(fragments(old(self)@, all) =~= shown@.map_values(|c: String| c@));
            }
        } else {
            proof {
                let ls = lines_from(s, start as int, n as int);
                assert(ls =~= seq![]);
                assert(fragments(self@, ls) =~= seq![]);
                assert(run(self@, ls) == self@);
                assert(fragments(old(self)@, all) =~= shown@.map_values(|c: String| c@));
            }
        }
        shown
    }

    /// The reply so far, without leading and trailing whitespace.
    pub fn finish(&self) -> (r: String)
        ensures
            r@ == trimmed(self@.reply),
    {
        trim_text(self.reply.as_str())
    }
}

/// Decodes a whole stream given as its chunks: the trimmed reply.
pub fn decode_chunks(chunks: &[Vec<u8>]) -> (r: String)
    ensures
        r@ == trimmed(run_chunks(fresh(), chunks@.map_values(|c: Vec<u8>| c@)).reply),
{
    let ghost cs = chunks@.map_values(|c: Vec<u8>| c@);
    let mut decoder = StreamDecoder::new();
    let mut k: usize = 0;
    assert(cs.subrange(0, cs.len() as int) =~= cs);
    while k < chunks.len()
        invariant
            k <= chunks@.len() == cs.len(),
            cs == chunks@.map_values(|c: Vec<u8>| c@),
            run_chunks(fresh(), cs) == run_chunks(decoder@, cs.subrange(k as int, cs.len() as int)),
        decreases chunks.len() - k,
    {
        let _shown = decoder.feed_chunk(chunks[k].as_slice());
        proof {
            let rest = cs.subrange(k as int, cs.len() as int);
            assert(rest[0] == chunks@[k as int]@);
            assert(rest.drop_first() =~= cs.subrange(k + 1, cs.len() as int));
        }
        k = k + 1;
    }
    decoder.finish()
}

} // verus!
