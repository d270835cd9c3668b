//! Streamed-reply reassembly: the accumulator that turns a chunk stream into
//! one assistant message, and the line framing of a server-sent event feed.

use vstd::prelude::*;
use vstd::string::StringExecFns;
use crate::codec::{complete_lines_of, first_nl};
use crate::llm::{ChunkModel, StreamChunk};
use crate::state::{ChatMessage, MessageRole};
use crate::strutil::{trim, trim_spec};

verus! {

/// Where a stream consumer stands: still reading, cleanly finished, or
/// failed. Once terminal, an accumulator accepts nothing further.
#[derive(Clone, Copy, Debug, PartialEq, Eq, Structural)]
pub enum AccumState {
    Streaming,
    Done,
    Failed,
}

/// Accumulates the deltas of one streamed reply and finalizes them into the
/// assistant message, under an identifier allocated before the stream began.
pub struct StreamAccumulator {
    pub conversation_id: u128,
    pub assistant_id: u128,
    pub buffer: String,
    pub state: AccumState,
}

/// The model of a [`StreamAccumulator`].
pub ghost struct AccumModel {
    pub conversation_id: u128,
    pub assistant_id: u128,
    pub buffer: Seq<char>,
    pub state: AccumState,
}

impl View for StreamAccumulator {
    type V = AccumModel;

    open spec fn view(&self) -> AccumModel {
        AccumModel {
            conversation_id: self.conversation_id,
            assistant_id: self.assistant_id,
            buffer: self.buffer@,
            state: self.state,
        }
    }
}

/// The index of the first `done` chunk, or `-1` when none is present.
pub open spec fn first_done(chunks: Seq<ChunkModel>) -> int
    decreases chunks.len(),
{
    if chunks.len() == 0 {
        -1
    } else if chunks[0].done {
        0
    } else {
        let r = first_done(chunks.drop_first());
        if r < 0 {
            -1
        } else {
            1 + r
        }
    }
}

pub proof fn lemma_first_done_bounds(chunks: Seq<ChunkModel>)
    ensures
        -1 <= first_done(chunks) < chunks.len(),
        first_done(chunks) >= 0 ==> chunks[first_done(chunks)].done,
        forall|i: int| 0 <= i < first_done(chunks) ==> !(#[trigger] chunks[i]).done,
        first_done(chunks) < 0 ==> forall|i: int|
            0 <= i < chunks.len() ==> !(#[trigger] chunks[i]).done,
    decreases chunks.len(),
{
    if chunks.len() > 0 && !chunks[0].done {
        lemma_first_done_bounds(chunks.drop_first());
        assert forall|i: int| 0 <= i < first_done(chunks) implies !(#[trigger] chunks[i]).done by {
            if i > 0 {
                assert(chunks[i] == chunks.drop_first()[i - 1]);
            }
        }
        if first_done(chunks) < 0 {
            assert forall|i: int| 0 <= i < chunks.len() implies !(#[trigger] chunks[i]).done by {
                if i > 0 {
                    assert(chunks[i] == chunks.drop_first()[i - 1]);
                }
            }
        }
    }
}

impl StreamAccumulator {
    /// Starts accumulating for one conversation, under a pre-allocated
    /// assistant message identifier.
    pub fn new(conversation_id: u128, assistant_id: u128) -> (r: StreamAccumulator)
        ensures
            r@.conversation_id == conversation_id,
            r@.assistant_id == assistant_id,
            r@.buffer.len() == 0,
            r@.state == AccumState::Streaming,
    {
        StreamAccumulator {
            conversation_id,
            assistant_id,
            buffer: String::new(),
            state: AccumState::Streaming,
        }
    }

    /// Absorbs one chunk: a delta extends the buffer, the `done` marker ends
    /// the stream. Only a live accumulator may absorb, so nothing follows the
    /// terminal chunk.
    pub fn absorb(&mut self, chunk: &StreamChunk)
        requires
            old(self)@.state == AccumState::Streaming,
        ensures
            final(self)@.conversation_id == old(self)@.conversation_id,
            final(self)@.assistant_id == old(self)@.assistant_id,
            chunk@.done ==> final(self)@.state == AccumState::Done && final(self)@.buffer == old(
                self,
            )@.buffer,
            !chunk@.done ==> final(self)@.state == AccumState::Streaming && final(self)@.buffer
                == old(self)@.buffer + chunk@.delta,
    {
        if chunk.done {
            self.state = AccumState::Done;
        } else {
            self.buffer.append(chunk.delta.as_str());
        }
    }

    /// Records a stream error: the partial buffer is discarded and the
    /// accumulator becomes terminal.
    pub fn fail(&mut self)
        requires
            old(self)@.state == AccumState::Streaming,
        ensures
            final(self)@.conversation_id == old(self)@.conversation_id,
            final(self)@.assistant_id == old(self)@.assistant_id,
            final(self)@.state == AccumState::Failed,
            final(self)@.buffer.len() == 0,
    {
        self.buffer = String::new();
        self.state = AccumState::Failed;
    }

    /// Absorbs chunks in order until the first `done` marker or the end of
    /// the input.
    pub fn drain(&mut self, chunks: &Vec<StreamChunk>)
        requires
            old(self)@.state == AccumState::Streaming,
        ensures
            final(self)@.conversation_id == old(self)@.conversation_id,
            final(self)@.assistant_id == old(self)@.assistant_id,
            ({
                let dv = chunks.deep_view();
                if first_done(dv) >= 0 {
                    final(self)@.state == AccumState::Done && final(self)@.buffer == old(self)@.buffer
                        + crate::llm::accumulated(dv.take(first_done(dv)))
                } else {
                    final(self)@.state == AccumState::Streaming && final(self)@.buffer == old(
                        self,
                    )@.buffer + crate::llm::accumulated(dv)
                }
            }),
    {
        let ghost dv = chunks.deep_view();
        let n = chunks.len();
        let mut i: usize = 0;
        proof {
            lemma_first_done_bounds(dv);
            assert(crate::llm::accumulated(dv.take(0)) =~= Seq::<char>::empty());
            assert(old(self)@.buffer + Seq::<char>::empty() =~= old(self)@.buffer);
        }
        while i < n
            invariant
                i <= n,
                n == chunks@.len(),
                dv == chunks.deep_view(),
                self@.conversation_id == old(self)@.conversation_id,
                self@.assistant_id == old(self)@.assistant_id,
                self@.state == AccumState::Streaming,
                forall|k: int| 0 <= k < i ==> !(#[trigger] dv[k]).done,
                self@.buffer == old(self)@.buffer + crate::llm::accumulated(dv.take(i as int)),
            decreases n - i,
        {
            proof {
                assert(dv[i as int] == chunks@[i as int]@);
            }
            let is_done = chunks[i].done;
            self.absorb(&chunks[i]);
            if is_done {
                proof {
                    lemma_first_done_at(dv, i as int);
                }
                return;
            }
            i += 1;
            proof {
                lemma_accumulated_take_step(dv, i as int);
                assert((old(self)@.buffer + crate::llm::accumulated(dv.take(i as int - 1)))
                    + dv[i as int - 1].delta =~= old(self)@.buffer + (crate::llm::accumulated(
                    dv.take(i as int - 1),
                ) + dv[i as int - 1].delta));
            }
        }
        proof {
            lemma_first_done_bounds(dv);
            if first_done(dv) >= 0 {
                assert(!dv[first_done(dv)].done);
                assert(false);
            }
            assert(dv.take(n as int) =~= dv);
        }
    }

    /// The finalized assistant message: present exactly when the stream
    /// finished cleanly, carrying the pre-allocated identifier and the
    /// accumulated text. After an error no partial message exists.
    pub fn finalize(&self) -> (r: Option<ChatMessage>)
        ensures
            match r {
                Some(m) => {
                    &&& self@.state == AccumState::Done
                    &&& m@.id == self@.assistant_id
                    &&& m@.role == MessageRole::Assistant
                    &&& m@.content == self@.buffer
                    &&& m@.tool_calls.len() == 0
                },
                None => self@.state != AccumState::Done,
            },
    {
        if self.state == AccumState::Done {
            let mut m = ChatMessage::new(MessageRole::Assistant, self.buffer.as_str());
            m.id = self.assistant_id;
            Some(m)
        } else {
            None
        }
    }
}

proof fn lemma_first_done_at(chunks: Seq<ChunkModel>, i: int)
    requires
        0 <= i < chunks.len(),
        chunks[i].done,
        forall|k: int| 0 <= k < i ==> !(#[trigger] chunks[k]).done,
    ensures
        first_done(chunks) == i,
    decreases i,
{
    if i > 0 {
        assert(!chunks[0].done);
        assert forall|k: int| 0 <= k < i - 1 implies !(#[trigger] chunks.drop_first()[k]).done by {
            assert(chunks.drop_first()[k] == chunks[k + 1]);
        }
        assert(chunks.drop_first()[i - 1] == chunks[i]);
        lemma_first_done_at(chunks.drop_first(), i - 1);
    }
}

proof fn lemma_accumulated_take_step(chunks: Seq<ChunkModel>, i: int)
    requires
        0 < i <= chunks.len(),
        !chunks[i - 1].done,
    ensures
        crate::llm::accumulated(chunks.take(i)) == crate::llm::accumulated(chunks.take(i - 1))
            + chunks[i - 1].delta,
    decreases i,
{
    if i == 1 {
        assert(chunks.take(1) =~= seq![chunks[0]]);
        assert(seq![chunks[0]].drop_first() =~= Seq::<ChunkModel>::empty());
        assert(crate::llm::accumulated(seq![chunks[0]]) == chunks[0].delta + crate::llm::accumulated(
            Seq::<ChunkModel>::empty(),
        ));
        assert(chunks[0].delta + Seq::<char>::empty() =~= chunks[0].delta);
        assert(crate::llm::accumulated(chunks.take(0)) + chunks[0].delta =~= chunks[0].delta);
    } else {
        let t = chunks.drop_first();
        assert(t[i - 2] == chunks[i - 1]);
        lemma_accumulated_take_step(t, i - 1);
        assert(chunks.take(i).drop_first() =~= t.take(i - 1));
        assert(chunks.take(i - 1).drop_first() =~= t.take(i - 2));
        assert(chunks.take(i)[0] == chunks[0]);
        assert(chunks.take(i - 1)[0] == chunks[0]);
        let h = if !chunks[0].done {
            chunks[0].delta
        } else {
            Seq::<char>::empty()
        };
        assert(crate::llm::accumulated(chunks.take(i)) == h + crate::llm::accumulated(t.take(i - 1)));
        assert(crate::llm::accumulated(chunks.take(i - 1)) == h + crate::llm::accumulated(
            t.take(i - 2),
        ));
        assert(h + (crate::llm::accumulated(t.take(i - 2)) + t[i - 2].delta) =~= (h
            + crate::llm::accumulated(t.take(i - 2))) + t[i - 2].delta);
    }
}

// ---------------------------------------------------------------------------
// Server-sent event framing
// ---------------------------------------------------------------------------

/// One framed event of a streamed completion feed: a data payload for the
/// caller to decode, or the end-of-stream marker.
pub enum SseEvent {
    Payload(String),
    Done,
}

/// The model of an [`SseEvent`].
pub ghost enum SseEventModel {
    Payload(Seq<char>),
    Done,
}

impl View for SseEvent {
    type V = SseEventModel;

    open spec fn view(&self) -> SseEventModel {
        match self {
            SseEvent::Payload(p) => SseEventModel::Payload(p@),
            SseEvent::Done => SseEventModel::Done,
        }
    }
}

impl DeepView for SseEvent {
    type V = SseEventModel;

    open spec fn deep_view(&self) -> SseEventModel {
        self.view()
    }
}

/// What one feed line means: nothing for blank or non-data lines, the end
/// marker for `data: [DONE]`, and otherwise the data payload.
pub open spec fn sse_line_event(line: Seq<char>) -> Option<SseEventModel> {
    let t = trim_spec(line);
    if t.len() == 0 {
        None
    } else if t.len() >= 6 && t.take(6) == "data: "@ {
        let p = t.skip(6);
        if p == "[DONE]"@ {
            Some(SseEventModel::Done)
        } else {
            Some(SseEventModel::Payload(p))
        }
    } else {
        None
    }
}

/// The events carried by a sequence of feed lines, in order.
pub open spec fn sse_events(lines: Seq<Seq<char>>) -> Seq<SseEventModel>
    decreases lines.len(),
{
    if lines.len() == 0 {
        Seq::empty()
    } else {
        (match sse_line_event(lines[0]) {
            Some(e) => seq![e],
            None => Seq::empty(),
        }) + sse_events(lines.drop_first())
    }
}

/// The text after the last newline of `s`: an incomplete trailing line.
pub open spec fn line_remainder(s: Seq<char>) -> Seq<char>
    decreases s.len(),
{
    let i = first_nl(s);
    if 0 <= i < s.len() {
        line_remainder(s.skip(i + 1))
    } else {
        s
    }
}

/// Reassembles a streamed completion feed from arbitrarily cut text pieces
/// into whole lines and their events.
pub struct SseBuffer {
    pending: String,
}

impl View for SseBuffer {
    type V = Seq<char>;

    closed spec fn view(&self) -> Seq<char> {
        self.pending@
    }
}

impl SseBuffer {
    /// An empty reassembly buffer.
    pub fn new() -> (r: SseBuffer)
        ensures
            r@.len() == 0,
    {
        SseBuffer { pending: String::new() }
    }

    /// Absorbs the next piece of feed text and returns the events of every
    /// line it completes; the trailing incomplete line is kept for the next
    /// call.
    pub fn push_text(&mut self, text: &str) -> (r: Vec<SseEvent>)
        ensures
            r.deep_view() == sse_events(complete_lines_of(old(self)@ + text@)),
            final(self)@ == line_remainder(old(self)@ + text@),
    {
        self.pending.append(text);
        let whole = self.pending.clone();
        let lines = crate::codec::split_complete_lines(whole.as_str());
        let ghost line_seq = complete_lines_of(whole@);
        let mut events: Vec<SseEvent> = Vec::new();
        let n = lines.len();
        let mut i: usize = 0;
        proof {
            assert(line_seq.skip(0) =~= line_seq);
            assert(events.deep_view() + sse_events(line_seq) =~= sse_events(line_seq));
        }
        while i < n
            invariant
                i <= n,
                n == lines@.len(),
                lines.deep_view() == line_seq,
                sse_events(line_seq) == events.deep_view() + sse_events(line_seq.skip(i as int)),
            decreases n - i,
        {
            let ghost rest = line_seq.skip(i as int);
            proof {
                assert(rest[0] == line_seq[i as int]);
                assert(lines@[i as int]@ == line_seq[i as int]);
                assert(rest.drop_first() =~= line_seq.skip(i as int + 1));
            }
            let t = trim(lines[i].as_str());
            match classify_line(&t) {
                Some(e) => {
                    let ghost prev = events.deep_view();
                    let ghost em = e@;
                    events.push(e);
                    proof {
                        assert(events.deep_view() =~= prev.push(em));
                        assert(sse_line_event(rest[0]) == Some(em));
                        assert(prev + (seq![em] + sse_events(rest.drop_first())) =~= events.deep_view()
                            + sse_events(rest.drop_first()));
                    }
                },
                None => {
                    proof {
                        assert(sse_line_event(rest[0]) is None);
                    }
                },
            }
            i += 1;
        }
        proof {
            assert(line_seq.skip(n as int).len() == 0);
            assert(events.deep_view() + Seq::<SseEventModel>::empty() =~= events.deep_view());
        }
        let remainder = remainder_text(whole.as_str());
        self.pending = remainder;
        events
    }
}

/// Classifies one already-trimmed feed line.
fn classify_line(t: &String) -> (r: Option<SseEvent>)
    ensures
        ({
            let e = ({
                if t@.len() == 0 {
                    None::<SseEventModel>
                } else if t@.len() >= 6 && t@.take(6) == "data: "@ {
                    if t@.skip(6) == "[DONE]"@ {
                        Some(SseEventModel::Done)
                    } else {
                        Some(SseEventModel::Payload(t@.skip(6)))
                    }
                } else {
                    None::<SseEventModel>
                }
            });
            match r {
                Some(ev) => e == Some(ev@),
                None => e is None,
            }
        }),
{
    let chars = crate::strutil::to_chars(t.as_str());
    let n = chars.len();
    if n == 0 {
        return None;
    }
    if n < 6 {
        proof {
            if t@.len() >= 6 && t@.take(6) == "data: "@ {
                assert(t@.take(6).len() == 6);
            }
        }
        return None;
    }
    let prefix_ok = chars[0] == 'd' && chars[1] == 'a' && chars[2] == 't' && chars[3] == 'a'
        && chars[4] == ':' && chars[5] == ' ';
    proof {
        reveal_strlit("data: ");
        if prefix_ok {
            assert(t@.take(6) =~= "data: "@);
        } else {
            if t@.take(6) == "data: "@ {
                assert(t@.take(6)[0] == t@[0]);
                assert(t@.take(6)[1] == t@[1]);
                assert(t@.take(6)[2] == t@[2]);
                assert(t@.take(6)[3] == t@[3]);
                assert(t@.take(6)[4] == t@[4]);
                assert(t@.take(6)[5] == t@[5]);
            }
        }
    }
    if !prefix_ok {
        return None;
    }
    let mut payload: Vec<char> = Vec::new();
    let mut i: usize = 6;
    while i < n
        invariant
            6 <= i <= n,
            n == chars@.len(),
            chars@ == t@,
            payload@ == t@.subrange(6, i as int),
        decreases n - i,
    {
        payload.push(chars[i]);
        i += 1;
        proof {
            assert(t@.subrange(6, i as int) =~= t@.subrange(6, i as int - 1).push(
                t@[i as int - 1],
            ));
        }
    }
    proof {
        assert(payload@ =~= t@.skip(6));
    }
    let p = crate::strutil::from_chars(payload.as_slice());
    if crate::strutil::str_eq(p.as_str(), "[DONE]") {
        Some(SseEvent::Done)
    } else {
        Some(SseEvent::Payload(p))
    }
}

/// The trailing incomplete line of `text`.
fn remainder_text(text: &str) -> (r: String)
    ensures
        r@ == line_remainder(text@),
{
    let chars = crate::strutil::to_chars(text);
    let n = chars.len();
    // Find the last newline.
    let mut i: usize = n;
    while i > 0 && chars[i - 1] != '\n'
        invariant
            i <= n,
            n == chars@.len(),
            forall|k: int| i <= k < n ==> chars@[k] != '\n',
        decreases i,
    {
        i -= 1;
    }
    let mut out: Vec<char> = Vec::new();
    let mut k: usize = i;
    while k < n
        invariant
            i <= k <= n,
            n == chars@.len(),
            out@ == chars@.subrange(i as int, k as int),
        decreases n - k,
    {
        out.push(chars[k]);
        k += 1;
        proof {
            assert(chars@.subrange(i as int, k as int) =~= chars@.subrange(
                i as int,
                k as int - 1,
            ).push(chars@[k as int - 1]));
        }
    }
    proof {
        if i == 0 {
            lemma_remainder_no_nl(chars@);
            assert(chars@.subrange(0, n as int) =~= chars@);
        } else {
            assert(chars@[i as int - 1] == '\n');
            lemma_remainder_after_nl(chars@, i as int - 1);
            assert(chars@.subrange(i as int, n as int) =~= chars@.skip(i as int));
        }
    }
    crate::strutil::from_chars(out.as_slice())
}

proof fn lemma_remainder_no_nl(s: Seq<char>)
    requires
        forall|k: int| 0 <= k < s.len() ==> s[k] != '\n',
    ensures
        line_remainder(s) == s,
    decreases s.len(),
{
    crate::codec::lemma_first_nl_none(s);
}

/// The remainder after the last newline equals the remainder of the suffix
/// past any newline.
proof fn lemma_remainder_after_nl(s: Seq<char>, j: int)
    requires
        0 <= j < s.len(),
        s[j] == '\n',
        forall|k: int| j < k < s.len() ==> s[k] != '\n',
    ensures
        line_remainder(s) == s.skip(j + 1),
    decreases j,
{
    let i = first_nl(s);
    crate::codec::lemma_first_nl_bounds(s);
    assert(0 <= i <= j);
    if i == j {
        assert forall|k: int| 0 <= k < s.skip(j + 1).len() implies (#[trigger] s.skip(j + 1)[k]) != '\n' by {
            assert(s.skip(j + 1)[k] == s[j + 1 + k]);
        }
        lemma_remainder_no_nl(s.skip(j + 1));
    } else {
        let t = s.skip(i + 1);
        assert(t[j - i - 1] == s[j]);
        assert forall|k: int| j - i - 1 < k < t.len() implies (#[trigger] t[k]) != '\n' by {
            assert(t[k] == s[k + i + 1]);
        }
        lemma_remainder_after_nl(t, j - i - 1);
        assert(t.skip(j - i) =~= s.skip(j + 1));
    }
}

} // verus!
