//! The stream relay parser.
//!
//! The parser consumes an unbounded text stream in chunks whose boundaries
//! carry no meaning, reassembles newline-delimited frames, and emits a small
//! ordered set of events: incremental `Delta` fragments, then exactly one
//! terminal event (`Done` or `Error`), after which nothing more is ever
//! emitted.

use vstd::prelude::*;
use crate::text::{find_char, find_char_in, starts_with, str_eq, str_starts_with, trim_of, trim_seq};
use crate::payload::{decode_payload, payload_fields, PayloadFields};

verus! {

/// One event of the relay, as an exec value.
#[derive(Debug, Clone)]
pub enum StreamEvent {
    Delta { content: String },
    Done,
    Error { message: String },
}

/// One event of the relay, as a mathematical value.
pub enum EventModel {
    Delta(Seq<char>),
    Done,
    Error(Seq<char>),
}

impl View for StreamEvent {
    type V = EventModel;

    open spec fn view(&self) -> EventModel {
        match self {
            StreamEvent::Delta { content } => EventModel::Delta(content@),
            StreamEvent::Done => EventModel::Done,
            StreamEvent::Error { message } => EventModel::Error(message@),
        }
    }
}

/// A terminal event ends the stream: nothing may follow it.
pub open spec fn is_terminal(e: EventModel) -> bool {
    e is Done || e is Error
}

/// Executable test matching `is_terminal`.
pub fn is_terminal_event(e: &StreamEvent) -> (r: bool)
    ensures
        r == is_terminal(e@),
{
    match e {
        StreamEvent::Delta { .. } => false,
        StreamEvent::Done => true,
        StreamEvent::Error { .. } => true,
    }
}

/// The events of an event vector, as mathematical values.
pub open spec fn events_view(evs: Seq<StreamEvent>) -> Seq<EventModel> {
    evs.map_values(|e: StreamEvent| e@)
}

/// The fixed prefix that marks a meaningful frame.
pub open spec fn data_prefix() -> Seq<char> {
    seq!['d', 'a', 't', 'a', ':', ' ']
}

/// The literal terminal token of the protocol.
pub open spec fn done_token() -> Seq<char> {
    seq!['[', 'D', 'O', 'N', 'E', ']']
}

/// One trailing carriage return stripped, for frames ended by `\r\n`.
pub open spec fn strip_cr(line: Seq<char>) -> Seq<char> {
    if line.len() > 0 && line.last() == '\r' {
        line.drop_last()
    } else {
        line
    }
}

/// The event one complete frame line yields given its decoded payload
/// fields, if any: a fragment when a non-empty `content` field is present,
/// an error when only an `error` field is, nothing otherwise.
pub open spec fn payload_event(fields: (Option<Seq<char>>, Option<Seq<char>>)) -> Option<
    EventModel,
> {
    if fields.0 is Some && fields.0->0.len() > 0 {
        Some(EventModel::Delta(fields.0->0))
    } else if fields.1 is Some {
        Some(EventModel::Error(fields.1->0))
    } else {
        None
    }
}

/// The event one complete frame line yields, if any. Lines without the data
/// prefix, empty payloads and undecodable payloads yield nothing; the
/// terminal token yields `Done`.
pub open spec fn frame_event(line: Seq<char>) -> Option<EventModel> {
    let l = strip_cr(line);
    if !starts_with(l, data_prefix()) {
        None
    } else {
        let payload = trim_seq(l.skip(data_prefix().len() as int));
        if payload == done_token() {
            Some(EventModel::Done)
        } else if payload.len() == 0 {
            None
        } else {
            payload_event(payload_fields(payload))
        }
    }
}

/// The parser's state, as a mathematical value: the pending partial line and
/// whether a terminal event has been emitted.
pub struct ParserModel {
    pub buffer: Seq<char>,
    pub terminated: bool,
}

/// The state a fresh parser starts in.
pub open spec fn parser_init() -> ParserModel {
    ParserModel { buffer: Seq::empty(), terminated: false }
}

/// All complete lines of `buf` processed in order: the resulting state and
/// the emitted events. Processing stops at the first terminal event; the
/// trailing text without a newline stays pending.
pub open spec fn drain(buf: Seq<char>) -> (ParserModel, Seq<EventModel>)
    decreases buf.len(),
    via drain_decreases
{
    match find_char(buf, '\n') {
        None => (ParserModel { buffer: buf, terminated: false }, Seq::empty()),
        Some(i) => {
            let line = buf.subrange(0, i);
            let rest = buf.subrange(i + 1, buf.len() as int);
            match frame_event(line) {
                None => drain(rest),
                Some(ev) => {
                    if is_terminal(ev) {
                        (ParserModel { buffer: Seq::empty(), terminated: true }, seq![ev])
                    } else {
                        (drain(rest).0, seq![ev] + drain(rest).1)
                    }
                }
            }
        }
    }
}

#[via_fn]
proof fn drain_decreases(buf: Seq<char>) {
    crate::text::lemma_find_char(buf, '\n');
}

/// One chunk arriving: nothing happens after termination; otherwise the
/// chunk joins the pending text and the complete lines are processed.
pub open spec fn parser_push(m: ParserModel, input: Seq<char>) -> (ParserModel, Seq<EventModel>) {
    if m.terminated {
        (m, Seq::empty())
    } else {
        drain(m.buffer + input)
    }
}

/// The stream ending cleanly: a parser not yet terminated emits `Done`.
pub open spec fn parser_finish(m: ParserModel) -> (ParserModel, Seq<EventModel>) {
    if m.terminated {
        (m, Seq::empty())
    } else {
        (ParserModel { buffer: m.buffer, terminated: true }, seq![EventModel::Done])
    }
}

/// The stream failing: a parser not yet terminated emits `Error` with the
/// given message.
pub open spec fn parser_fail(m: ParserModel, message: Seq<char>) -> (
    ParserModel,
    Seq<EventModel>,
) {
    if m.terminated {
        (m, Seq::empty())
    } else {
        (ParserModel { buffer: m.buffer, terminated: true }, seq![EventModel::Error(message)])
    }
}

/// A parser state reachable in a run: the pending text holds no newline.
pub open spec fn parser_wf(m: ParserModel) -> bool {
    find_char(m.buffer, '\n') is None
}

/// A fresh parser is well-formed.
pub proof fn lemma_init_wf()
    ensures
        parser_wf(parser_init()),
{
}

/// Draining leaves a well-formed state: no newline stays pending.
proof fn lemma_drain_wf(buf: Seq<char>)
    ensures
        parser_wf(drain(buf).0),
    decreases buf.len(),
{
    crate::text::lemma_find_char(buf, '\n');
    match find_char(buf, '\n') {
        None => {
        }
        Some(i) => {
            let line = buf.subrange(0, i);
            let rest = buf.subrange(i + 1, buf.len() as int);
            match frame_event(line) {
                None => {
                    lemma_drain_wf(rest);
                }
                Some(ev) => {
                    if is_terminal(ev) {
                        crate::text::lemma_find_char(Seq::empty(), '\n');
                    } else {
                        lemma_drain_wf(rest);
                    }
                }
            }
        }
    }
}

/// A push keeps the state well-formed.
pub proof fn lemma_push_wf(m: ParserModel, input: Seq<char>)
    requires
        parser_wf(m),
    ensures
        parser_wf(parser_push(m, input).0),
{
    if !m.terminated {
        lemma_drain_wf(m.buffer + input);
    }
}

/// Law helper: draining `buf + ext` is draining `buf` and then pushing
/// `ext` into the resulting state.
proof fn lemma_drain_append(buf: Seq<char>, ext: Seq<char>)
    ensures
        drain(buf + ext).0 == parser_push(drain(buf).0, ext).0,
        drain(buf + ext).1 == drain(buf).1 + parser_push(drain(buf).0, ext).1,
    decreases buf.len(),
{
    crate::text::lemma_find_char(buf, '\n');
    match find_char(buf, '\n') {
        None => {
            let m1 = drain(buf).0;
            assert(m1.buffer + ext =~= buf + ext);
            assert(Seq::<EventModel>::empty() + drain(buf + ext).1 =~= drain(buf + ext).1);
        }
        Some(i) => {
            assert((buf + ext)[i] == '\n');
            assert(forall|j: int| 0 <= j < i ==> (buf + ext)[j] == buf[j] && buf[j] != '\n');
            crate::text::lemma_find_char_unique(buf + ext, '\n', i);
            let line = buf.subrange(0, i);
            let rest = buf.subrange(i + 1, buf.len() as int);
            assert((buf + ext).subrange(0, i) =~= line);
            assert((buf + ext).subrange(i + 1, (buf + ext).len() as int) =~= rest + ext);
            match frame_event(line) {
                None => {
                    lemma_drain_append(rest, ext);
                }
                Some(ev) => {
                    if is_terminal(ev) {
                        assert(seq![ev] + Seq::<EventModel>::empty() =~= seq![ev]);
                    } else {
                        lemma_drain_append(rest, ext);
                        assert(seq![ev] + (drain(rest).1 + parser_push(drain(rest).0, ext).1)
                            =~= (seq![ev] + drain(rest).1) + parser_push(drain(rest).0, ext).1);
                    }
                }
            }
        }
    }
}

/// Law: a chunk boundary carries no meaning — pushing `a` and then `b`
/// yields the same state, and the same events in the same order, as pushing
/// `a + b` at once.
pub proof fn lemma_push_split(m: ParserModel, a: Seq<char>, b: Seq<char>)
    ensures
        parser_push(parser_push(m, a).0, b).0 == parser_push(m, a + b).0,
        parser_push(m, a).1 + parser_push(parser_push(m, a).0, b).1 == parser_push(m, a + b).1,
{
    if m.terminated {
        assert(Seq::<EventModel>::empty() + Seq::<EventModel>::empty() =~= Seq::<
            EventModel,
        >::empty());
    } else {
        assert(m.buffer + (a + b) =~= (m.buffer + a) + b);
        lemma_drain_append(m.buffer + a, b);
    }
}

/// The state and the events of a whole run: the chunks pushed one after the
/// other, from state `m`.
pub open spec fn run_chunks(m: ParserModel, chunks: Seq<Seq<char>>) -> (
    ParserModel,
    Seq<EventModel>,
)
    decreases chunks.len(),
{
    if chunks.len() == 0 {
        (m, Seq::<EventModel>::empty())
    } else {
        let first = parser_push(m, chunks[0]);
        let rest = run_chunks(first.0, chunks.drop_first());
        (rest.0, first.1 + rest.1)
    }
}

/// Law: line reassembly is correct under arbitrary chunking — feeding the
/// chunks one by one yields exactly the state and the ordered events of
/// feeding their concatenation at once.
pub proof fn lemma_line_reassembly(m: ParserModel, chunks: Seq<Seq<char>>)
    requires
        parser_wf(m),
    ensures
        run_chunks(m, chunks).0 == parser_push(m, chunks.flatten()).0,
        run_chunks(m, chunks).1 == parser_push(m, chunks.flatten()).1,
    decreases chunks.len(),
{
    if chunks.len() == 0 {
        assert(chunks.flatten() =~= Seq::<char>::empty());
        if !m.terminated {
            assert(m.buffer + Seq::<char>::empty() =~= m.buffer);
            assert(drain(m.buffer) == (
                ParserModel { buffer: m.buffer, terminated: false },
                Seq::<EventModel>::empty(),
            ));
            assert(parser_push(m, chunks.flatten()).0 =~= m);
        }
        assert(Seq::<EventModel>::empty() =~= parser_push(m, chunks.flatten()).1);
    } else {
        let c0 = chunks[0];
        let rest = chunks.drop_first();
        assert(chunks.flatten() == c0 + rest.flatten());
        let m1 = parser_push(m, c0).0;
        lemma_push_wf(m, c0);
        lemma_line_reassembly(m1, rest);
        lemma_push_split(m, c0, rest.flatten());
    }
}

/// Law helper: within one drain, a terminal event stands only as the very
/// last event, and the state terminated exactly when one was emitted.
proof fn lemma_drain_terminal(buf: Seq<char>)
    ensures
        drain(buf).0.terminated ==> drain(buf).1.len() > 0,
        forall|k: int|
            0 <= k < drain(buf).1.len() && is_terminal(#[trigger] drain(buf).1[k]) ==> k == drain(
                buf,
            ).1.len() - 1 && drain(buf).0.terminated,
    decreases buf.len(),
{
    crate::text::lemma_find_char(buf, '\n');
    match find_char(buf, '\n') {
        None => {
        }
        Some(i) => {
            let line = buf.subrange(0, i);
            let rest = buf.subrange(i + 1, buf.len() as int);
            match frame_event(line) {
                None => {
                    lemma_drain_terminal(rest);
                }
                Some(ev) => {
                    if !is_terminal(ev) {
                        lemma_drain_terminal(rest);
                        let evs = seq![ev] + drain(rest).1;
                        assert(forall|k: int| 1 <= k < evs.len() ==> evs[k] == drain(rest).1[k - 1]);
                    }
                }
            }
        }
    }
}

/// A run from a terminated state emits nothing and changes nothing.
pub proof fn lemma_run_terminated(m: ParserModel, chunks: Seq<Seq<char>>)
    requires
        m.terminated,
    ensures
        run_chunks(m, chunks).0 == m,
        run_chunks(m, chunks).1 == Seq::<EventModel>::empty(),
    decreases chunks.len(),
{
    if chunks.len() > 0 {
        lemma_run_terminated(m, chunks.drop_first());
        assert(Seq::<EventModel>::empty() + Seq::<EventModel>::empty() =~= Seq::<
            EventModel,
        >::empty());
    }
}

/// Law: the parser never emits an event after the first terminal one — over
/// any run, an emitted terminal event stands at the very end of everything
/// the run emits.
pub proof fn lemma_terminal_once(m: ParserModel, chunks: Seq<Seq<char>>)
    ensures
        forall|k: int|
            0 <= k < run_chunks(m, chunks).1.len() && is_terminal(
                #[trigger] run_chunks(m, chunks).1[k],
            ) ==> k == run_chunks(m, chunks).1.len() - 1,
    decreases chunks.len(),
{
    if chunks.len() > 0 {
        let c0 = chunks[0];
        let rest = chunks.drop_first();
        let e1 = parser_push(m, c0).1;
        let m1 = parser_push(m, c0).0;
        let e2 = run_chunks(m1, rest).1;
        let evs = run_chunks(m, chunks).1;
        assert(evs == e1 + e2);
        if m.terminated {
            lemma_run_terminated(m, chunks);
        } else {
            lemma_drain_terminal(m.buffer + c0);
            if m1.terminated {
                lemma_run_terminated(m1, rest);
                assert(e1 + e2 =~= e1);
            } else {
                lemma_terminal_once(m1, rest);
                assert(forall|k: int|
                    0 <= k < e1.len() ==> !is_terminal(#[trigger] e1[k]));
                assert(forall|k: int|
                    e1.len() <= k < evs.len() ==> evs[k] == e2[k - e1.len()]);
            }
        }
    }
}

/// The event a decoded payload yields. The decision is exactly
/// `payload_event` of the fields.
pub fn event_for_payload(fields: PayloadFields) -> (r: Option<StreamEvent>)
    ensures
        match r {
            Some(e) => payload_event(fields@) == Some(e@),
            None => payload_event(fields@) is None,
        },
{
    let PayloadFields { content, error } = fields;
    match content {
        Some(c) => {
            if !c.as_str().is_empty() {
                Some(StreamEvent::Delta { content: c })
            } else {
                match error {
                    Some(e) => Some(StreamEvent::Error { message: e }),
                    None => None,
                }
            }
        }
        None => {
            match error {
                Some(e) => Some(StreamEvent::Error { message: e }),
                None => None,
            }
        }
    }
}

/// The event one complete frame line yields. The decision is exactly
/// `frame_event` of the line.
pub fn frame_event_of(line: &str) -> (r: Option<StreamEvent>)
    ensures
        match r {
            Some(e) => frame_event(line@) == Some(e@),
            None => frame_event(line@) is None,
        },
{
    let n: usize = line.unicode_len();
    let stripped: &str = if n > 0 && line.get_char(n - 1) == '\r' {
        line.substring_char(0, n - 1)
    } else {
        line
    };
    proof {
        assert(stripped@ =~= strip_cr(line@));
    }
    if !str_starts_with(stripped, "data: ") {
        proof {
            reveal_strlit("data: ");
            assert("data: "@ =~= data_prefix());
        }
        return None;
    }
    proof {
        reveal_strlit("data: ");
        assert("data: "@ =~= data_prefix());
    }
    let m: usize = stripped.unicode_len();
    let payload_raw: &str = stripped.substring_char(6, m);
    let payload: &str = trim_of(payload_raw);
    proof {
        assert(payload_raw@ =~= strip_cr(line@).skip(data_prefix().len() as int));
    }
    if str_eq(payload, "[DONE]") {
        proof {
            reveal_strlit("[DONE]");
            assert("[DONE]"@ =~= done_token());
        }
        return Some(StreamEvent::Done);
    }
    proof {
        reveal_strlit("[DONE]");
        assert("[DONE]"@ =~= done_token());
    }
    if payload.is_empty() {
        return None;
    }
    let fields = decode_payload(payload);
    event_for_payload(fields)
}

/// The text an arbitrary byte chunk decodes to, invalid sequences replaced.
/// The decoding depends on the bytes alone.
pub uninterp spec fn lossy_utf8(bytes: Seq<u8>) -> Seq<char>;

/// Relies on `String::from_utf8_lossy`: decodes the bytes as UTF-8 and
/// replaces invalid sequences, never failing; the result depends on the
/// bytes alone and `lossy_utf8` names it.
#[verifier::external_body]
fn utf8_lossy(bytes: &[u8]) -> (r: String)
    ensures
        r@ == lossy_utf8(bytes@),
{
    String::from_utf8_lossy(bytes).into_owned()
}

/// The incremental relay parser. It accumulates arriving text, hands each
/// complete frame line to `frame_event_of`, and never emits an event after
/// the first terminal one.
pub struct RelayParser {
    buffer: String,
    terminated: bool,
}

impl View for RelayParser {
    type V = ParserModel;

    closed spec fn view(&self) -> ParserModel {
        ParserModel { buffer: self.buffer@, terminated: self.terminated }
    }
}

impl RelayParser {
    /// A fresh parser with nothing pending.
    pub fn new() -> (r: Self)
        ensures
            r@ == parser_init(),
    {
        let r = RelayParser { buffer: String::new(), terminated: false };
        proof {
            assert(r@.buffer =~= parser_init().buffer);
        }
        r
    }

    /// Whether a terminal event has been emitted.
    pub fn is_terminated(&self) -> (r: bool)
        ensures
            r == self@.terminated,
    {
        self.terminated
    }

    /// One chunk of stream text arriving. The state change and the emitted
    /// events are exactly `parser_push`.
    pub fn push_chunk(&mut self, chunk: &str) -> (events: Vec<StreamEvent>)
        ensures
            final(self)@ == parser_push(old(self)@, chunk@).0,
            events_view(events@) == parser_push(old(self)@, chunk@).1,
    {
        let mut events: Vec<StreamEvent> = Vec::new();
        proof {
            assert(events_view(events@) =~= Seq::<EventModel>::empty());
        }
        if self.terminated {
            return events;
        }
        self.buffer.append(chunk);
        let ghost b0 = old(self)@.buffer + chunk@;
        let mut scanning: bool = true;
        proof {
            assert(events_view(events@) + drain(self.buffer@).1 =~= drain(b0).1);
        }
        while scanning
            invariant
                scanning ==> !self.terminated,
                scanning ==> drain(b0).0 == drain(self.buffer@).0,
                scanning ==> drain(b0).1 == events_view(events@) + drain(self.buffer@).1,
                !scanning ==> self@ == drain(b0).0,
                !scanning ==> events_view(events@) == drain(b0).1,
            decreases (if scanning { 1int } else { 0int }), self.buffer@.len(),
        {
            let ghost buf = self.buffer@;
            let n: usize = self.buffer.as_str().unicode_len();
            match find_char_in(self.buffer.as_str(), '\n') {
                None => {
                    scanning = false;
                    proof {
                        assert(drain(buf) == (
                            ParserModel { buffer: buf, terminated: false },
                            Seq::<EventModel>::empty(),
                        ));
                        assert(events_view(events@) + Seq::<EventModel>::empty() =~= events_view(
                            events@,
                        ));
                    }
                }
                Some(i) => {
                    let line: String;
                    let rest: String;
                    {
                        let bs: &str = self.buffer.as_str();
                        line = bs.substring_char(0, i).to_owned();
                        rest = bs.substring_char(i + 1, n).to_owned();
                    }
                    proof {
                        assert(line@ =~= buf.subrange(0, i as int));
                        assert(rest@ =~= buf.subrange(i + 1, buf.len() as int));
                    }
                    match frame_event_of(line.as_str()) {
                        None => {
                            self.buffer = rest;
                            proof {
                                assert(drain(buf) == drain(self.buffer@));
                            }
                        }
                        Some(e) => {
                            let terminal = is_terminal_event(&e);
                            let ghost ge = e@;
                            let ghost evs_before = events@;
                            events.push(e);
                            proof {
                                assert(events_view(events@) =~= events_view(evs_before) + seq![ge]);
                            }
                            if terminal {
                                self.terminated = true;
                                self.buffer = String::new();
                                scanning = false;
                                proof {
                                    assert(drain(buf) == (
                                        ParserModel { buffer: Seq::empty(), terminated: true },
                                        seq![ge],
                                    ));
                                    assert(self@.buffer =~= Seq::<char>::empty());
                                    assert(events_view(evs_before) + seq![ge] =~= events_view(
                                        events@,
                                    ));
                                }
                            } else {
                                self.buffer = rest;
                                proof {
                                    assert(drain(buf) == (
                                        drain(self.buffer@).0,
                                        seq![ge] + drain(self.buffer@).1,
                                    ));
                                    assert(events_view(evs_before) + (seq![ge] + drain(
                                        self.buffer@,
                                    ).1) =~= events_view(events@) + drain(self.buffer@).1);
                                }
                            }
                        }
                    }
                }
            }
        }
        events
    }

    /// One chunk of the raw byte stream arriving: decoded as UTF-8 with
    /// invalid sequences replaced, then handled like arriving text.
    pub fn push_bytes(&mut self, chunk: &[u8]) -> (events: Vec<StreamEvent>)
        ensures
            final(self)@ == parser_push(old(self)@, lossy_utf8(chunk@)).0,
            events_view(events@) == parser_push(old(self)@, lossy_utf8(chunk@)).1,
    {
        let text = utf8_lossy(chunk);
        self.push_chunk(text.as_str())
    }

    /// The stream ended cleanly: emits `Done` unless a terminal event was
    /// already emitted.
    pub fn finish(&mut self) -> (events: Vec<StreamEvent>)
        ensures
            final(self)@ == parser_finish(old(self)@).0,
            events_view(events@) == parser_finish(old(self)@).1,
    {
        let mut events: Vec<StreamEvent> = Vec::new();
        proof {
            assert(events_view(events@) =~= Seq::<EventModel>::empty());
        }
        if !self.terminated {
            self.terminated = true;
            events.push(StreamEvent::Done);
            proof {
                assert(events_view(events@) =~= seq![EventModel::Done]);
            }
        }
        events
    }

    /// The stream failed: emits `Error` with the given message unless a
    /// terminal event was already emitted.
    pub fn fail(&mut self, message: String) -> (events: Vec<StreamEvent>)
        ensures
            final(self)@ == parser_fail(old(self)@, message@).0,
            events_view(events@) == parser_fail(old(self)@, message@).1,
    {
        let mut events: Vec<StreamEvent> = Vec::new();
        proof {
            assert(events_view(events@) =~= Seq::<EventModel>::empty());
        }
        if !self.terminated {
            self.terminated = true;
            let ghost gm = message@;
            events.push(StreamEvent::Error { message });
            proof {
                assert(events_view(events@) =~= seq![EventModel::Error(gm)]);
            }
        }
        events
    }
}

} // verus!
