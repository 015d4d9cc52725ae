//! The stream decoder: turns byte chunks, split anywhere, into the records of
//! a streamed response.
use vstd::prelude::*;

use crate::json::{
    get_field, json_front, parse_front, take_field, Front, FrontParse, JsonKind, Scalar,
};

verus! {

/// What a record carries, in plain values.
pub struct RecordView {
    pub text: Option<Seq<char>>,
    pub is_final: bool,
    pub has_context: bool,
}

/// What the decoder hands out: a record, or the bytes that did not read as one.
pub enum EventView {
    Record(RecordView),
    Malformed(Seq<u8>),
}

/// The state of a decoder: the bytes not yet read as a record, and whether
/// the terminal record has been seen.
pub struct DecoderView {
    pub buffer: Seq<u8>,
    pub terminal: bool,
}

impl DecoderView {
    pub open spec fn initial() -> DecoderView {
        DecoderView { buffer: Seq::empty(), terminal: false }
    }

    /// Once the terminal record is seen, nothing stays buffered.
    pub open spec fn wf(self) -> bool {
        self.terminal ==> self.buffer.len() == 0
    }
}

/// The record that an object stands for: `done` is true only as a boolean
/// `true`, the text is `response` when it is a string, and the context counts
/// only beside `done`.
pub open spec fn record_view(e: Map<Seq<char>, JsonKind>) -> RecordView {
    let is_final = e.contains_key("done"@) && e["done"@] == JsonKind::Bool(true);
    RecordView {
        text: if e.contains_key("response"@) {
            match e["response"@] {
                JsonKind::Str(s) => Some(s),
                _ => None,
            }
        } else {
            None
        },
        is_final,
        has_context: is_final && e.contains_key("context"@),
    }
}

/// One step on a buffer, given how its front reads: the state after it, and
/// the event it hands out.
pub open spec fn absorb_spec(buffer: Seq<u8>, f: Front) -> (DecoderView, Option<EventView>) {
    match f {
        Front::Truncated => (DecoderView { buffer, terminal: false }, None),
        Front::Invalid => (DecoderView::initial(), Some(EventView::Malformed(buffer))),
        Front::Record { len, entries } => {
            let r = record_view(entries);
            if r.is_final {
                (DecoderView { buffer: Seq::empty(), terminal: true }, Some(EventView::Record(r)))
            } else {
                (
                    DecoderView { buffer: buffer.subrange(len as int, buffer.len() as int), terminal: false },
                    Some(EventView::Record(r)),
                )
            }
        },
    }
}

/// Reads records from the front of a buffer until it is empty, cut short,
/// malformed or terminal: the events, and the state left.
pub open spec fn drain(buffer: Seq<u8>) -> (Seq<EventView>, DecoderView)
    decreases buffer.len(),
{
    if buffer.len() == 0 {
        (Seq::empty(), DecoderView { buffer, terminal: false })
    } else {
        let (d, e) = absorb_spec(buffer, json_front(buffer));
        match e {
            None => (Seq::empty(), d),
            Some(ev) => if !d.terminal && d.buffer.len() < buffer.len() {
                let (rest, d2) = drain(d.buffer);
                (seq![ev] + rest, d2)
            } else {
                (seq![ev], d)
            },
        }
    }
}

/// One chunk fed to a decoder: the state after it, and the events.
pub open spec fn feed_spec(d: DecoderView, chunk: Seq<u8>) -> (DecoderView, Seq<EventView>) {
    if d.terminal {
        (d, Seq::empty())
    } else {
        let (ev, d2) = drain(d.buffer + chunk);
        (d2, ev)
    }
}

/// A fresh decoder fed the chunks in order: its state, and all the events.
pub open spec fn run(chunks: Seq<Seq<u8>>) -> (DecoderView, Seq<EventView>)
    decreases chunks.len(),
{
    if chunks.len() == 0 {
        (DecoderView::initial(), Seq::empty())
    } else {
        let (d, ev) = run(chunks.drop_last());
        let (d2, ev2) = feed_spec(d, chunks.last());
        (d2, ev + ev2)
    }
}

/// One record of the stream.
pub struct DecodedRecord {
    pub text_fragment: Option<String>,
    pub is_final: bool,
    pub context: Option<serde_json::Value>,
}

impl DecodedRecord {
    pub open spec fn view(&self) -> RecordView {
        RecordView {
            text: match self.text_fragment {
                Some(s) => Some(s@),
                None => None,
            },
            is_final: self.is_final,
            has_context: self.context.is_some(),
        }
    }
}

/// What feeding a chunk hands out.
pub enum DecodeEvent {
    Record(DecodedRecord),
    /// Bytes that did not read as a record; they were dropped.
    Malformed(Vec<u8>),
}

impl DecodeEvent {
    pub open spec fn view(&self) -> EventView {
        match self {
            DecodeEvent::Record(r) => EventView::Record(r.view()),
            DecodeEvent::Malformed(b) => EventView::Malformed(b@),
        }
    }
}

pub open spec fn events_view(evs: Seq<DecodeEvent>) -> Seq<EventView> {
    evs.map_values(|e: DecodeEvent| e.view())
}

pub open spec fn option_event_view(e: Option<DecodeEvent>) -> Option<EventView> {
    match e {
        Some(ev) => Some(ev.view()),
        None => None,
    }
}

/// Why a stream did not end as it should.
#[derive(Debug, PartialEq, Eq, Structural)]
pub enum DecodeError {
    /// The chunks ran out before the terminal record came.
    IncompleteStream,
}

/// Reassembles records from byte chunks whose boundaries fall anywhere.
pub struct StreamDecoder {
    buffer: Vec<u8>,
    terminal: bool,
}

impl View for StreamDecoder {
    type V = DecoderView;

    closed spec fn view(&self) -> DecoderView {
        DecoderView { buffer: self.buffer@, terminal: self.terminal }
    }
}

impl StreamDecoder {
    pub fn new() -> (r: StreamDecoder)
        ensures
            r@ == DecoderView::initial(),
    {
        StreamDecoder { buffer: Vec::new(), terminal: false }
    }

    pub fn is_terminal(&self) -> (r: bool)
        ensures
            r == self@.terminal,
    {
        self.terminal
    }

    /// The bytes received but not yet read as a record.
    pub fn pending(&self) -> (r: &[u8])
        ensures
            r@ == self@.buffer,
    {
        self.buffer.as_slice()
    }

    /// Takes one step, given how the front of the buffer reads.
    pub fn absorb(&mut self, front: FrontParse) -> (r: Option<DecodeEvent>)
        requires
            !old(self)@.terminal,
            front matches FrontParse::Record(_, n) ==> n <= old(self)@.buffer.len(),
        ensures
            (final(self)@, option_event_view(r)) == absorb_spec(old(self)@.buffer, front@),
    {
        match front {
            FrontParse::Truncated => None,
            FrontParse::Invalid => {
                let bad = self.buffer.split_off(0);
                assert(self.buffer@ =~= Seq::<u8>::empty());
                assert(bad@ =~= old(self)@.buffer);
                Some(DecodeEvent::Malformed(bad))
            },
            FrontParse::Record(m, n) => {
                let mut m = m;
                let done = match get_field(&m, "done") {
                    Some(Scalar::Bool(b)) => b,
                    _ => false,
                };
                let text_fragment = match get_field(&m, "response") {
                    Some(Scalar::Str(s)) => Some(s),
                    _ => None,
                };
                let context = if done {
                    take_field(&mut m, "context")
                } else {
                    None
                };
                if done {
                    self.buffer = Vec::new();
                    self.terminal = true;
                } else {
                    self.buffer = self.buffer.split_off(n);
                }
                Some(DecodeEvent::Record(DecodedRecord { text_fragment, is_final: done, context }))
            },
        }
    }

    /// Appends a chunk to the buffer and hands out every record that is then
    /// complete, in order. After the terminal record, chunks are ignored.
    pub fn feed(&mut self, chunk: &[u8]) -> (events: Vec<DecodeEvent>)
        requires
            old(self)@.wf(),
        ensures
            final(self)@.wf(),
            (final(self)@, events_view(events@)) == feed_spec(old(self)@, chunk@),
    {
        let mut events: Vec<DecodeEvent> = Vec::new();
        if self.terminal {
            assert(events_view(events@) =~= Seq::<EventView>::empty());
            return events;
        }
        self.buffer.extend_from_slice(chunk);
        let ghost whole = self@.buffer;
        assert(whole =~= old(self)@.buffer + chunk@);
        while self.buffer.len() > 0
            invariant
                self@.wf(),
                events_view(events@) + drain(self@.buffer).0 == drain(whole).0,
                !self@.terminal ==> drain(self@.buffer).1 == drain(whole).1,
                self@.terminal ==> drain(whole).1 == self@,
            ensures
                drain(self@.buffer).0.len() == 0,
                !self@.terminal ==> drain(self@.buffer).1 == self@,
            decreases self@.buffer.len(),
        {
            let front = parse_front(self.buffer.as_slice());
            if let FrontParse::Truncated = front {
                break;
            }
            let ghost prior = events_view(events@);
            let ev = self.absorb(front);
            match ev {
                Some(e) => {
                    events.push(e);
                    assert(events_view(events@) =~= prior + seq![e.view()]);
                },
                None => {},
            }
        }
        assert(events_view(events@) =~= drain(whole).0);
        events
    }

    /// How the stream ended: `Ok` exactly when the terminal record was seen.
    pub fn finish(&self) -> (r: Result<(), DecodeError>)
        ensures
            r is Ok <==> self@.terminal,
            r is Err ==> r == Err::<(), DecodeError>(DecodeError::IncompleteStream),
    {
        if self.terminal {
            Ok(())
        } else {
            Err(DecodeError::IncompleteStream)
        }
    }
}

pub open spec fn chunk_views(chunks: Seq<Vec<u8>>) -> Seq<Seq<u8>> {
    chunks.map_values(|c: Vec<u8>| c@)
}

/// Decodes a whole stream: every event in order, and how the stream ended.
pub fn decode_chunks(chunks: &Vec<Vec<u8>>) -> (r: (Vec<DecodeEvent>, Result<(), DecodeError>))
    ensures
        events_view(r.0@) == run(chunk_views(chunks@)).1,
        r.1 is Ok <==> run(chunk_views(chunks@)).0.terminal,
        r.1 is Err ==> r.1 == Err::<(), DecodeError>(DecodeError::IncompleteStream),
{
    let mut decoder = StreamDecoder::new();
    let mut all: Vec<DecodeEvent> = Vec::new();
    let mut i: usize = 0;
    while i < chunks.len()
        invariant
            0 <= i <= chunks@.len(),
            decoder@.wf(),
            (decoder@, events_view(all@)) == run(chunk_views(chunks@).take(i as int)),
        decreases chunks@.len() - i,
    {
        let ghost views = chunk_views(chunks@);
        let ghost prior = events_view(all@);
        assert(views.take(i + 1).drop_last() =~= views.take(i as int));
        let mut evs = decoder.feed(chunks[i].as_slice());
        let ghost fed = events_view(evs@);
        all.append(&mut evs);
        assert(events_view(all@) =~= prior + fed);
        i = i + 1;
    }
    assert(chunk_views(chunks@).take(i as int) =~= chunk_views(chunks@));
    let status = decoder.finish();
    (all, status)
}

} // verus!
