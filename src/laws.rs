//! What holds of the decoder over whole streams.
use vstd::prelude::*;
use vstd::seq_lib::lemma_flatten_concat;

use crate::decoder::{absorb_spec, drain, feed_spec, record_view, run, DecoderView, EventView};
use crate::json::{json_front, Front, JsonKind};

verus! {

/// `r` reads as one object with these entries whatever bytes follow it, and
/// each shorter nonempty part of it reads as an object cut short.
pub open spec fn reads_as_record(r: Seq<u8>, entries: Map<Seq<char>, JsonKind>) -> bool {
    &&& r.len() > 0
    &&& forall|x: Seq<u8>| #[trigger] json_front(r + x) == (Front::Record { len: r.len(), entries })
    &&& forall|i: int| 0 < i < r.len() ==> #[trigger] json_front(r.take(i)) == Front::Truncated
}

/// A stream of records, each as bytes with its entries, where only the last
/// one is terminal.
pub open spec fn well_formed_stream(records: Seq<Seq<u8>>, entries: Seq<Map<Seq<char>, JsonKind>>) -> bool {
    &&& records.len() == entries.len()
    &&& records.len() > 0
    &&& forall|i: int| 0 <= i < records.len() ==> reads_as_record(#[trigger] records[i], entries[i])
    &&& forall|i: int| 0 <= i < records.len() - 1 ==> !(#[trigger] record_view(entries[i])).is_final
    &&& record_view(entries.last()).is_final
}

/// The events that a stream of records stands for.
pub open spec fn record_events(entries: Seq<Map<Seq<char>, JsonKind>>) -> Seq<EventView> {
    entries.map_values(|e: Map<Seq<char>, JsonKind>| EventView::Record(record_view(e)))
}

/// The text that a sequence of events carries, in order.
pub open spec fn emitted_text(evs: Seq<EventView>) -> Seq<char>
    decreases evs.len(),
{
    if evs.len() == 0 {
        Seq::empty()
    } else {
        let head = match evs[0] {
            EventView::Record(r) => match r.text {
                Some(t) => t,
                None => Seq::empty(),
            },
            EventView::Malformed(_) => Seq::empty(),
        };
        head + emitted_text(evs.drop_first())
    }
}

/// The text of the `response` fields of a stream of records, in order.
pub open spec fn response_text(entries: Seq<Map<Seq<char>, JsonKind>>) -> Seq<char>
    decreases entries.len(),
{
    if entries.len() == 0 {
        Seq::empty()
    } else {
        let head = match record_view(entries[0]).text {
            Some(t) => t,
            None => Seq::empty(),
        };
        head + response_text(entries.drop_first())
    }
}

spec fn offset(records: Seq<Seq<u8>>, i: int) -> int {
    records.take(i).flatten().len() as int
}

/// The number of records that lie whole in the first `l` bytes, counting
/// from record `i` on.
spec fn fit(records: Seq<Seq<u8>>, i: int, l: int) -> int
    decreases records.len() - i,
{
    if 0 <= i < records.len() && offset(records, i + 1) <= l {
        fit(records, i + 1, l)
    } else {
        i
    }
}

/// The decoder's state once `l` bytes of the stream came in and `k` records
/// were read.
spec fn state_at(records: Seq<Seq<u8>>, k: int, l: int) -> DecoderView {
    if k == records.len() {
        DecoderView { buffer: Seq::empty(), terminal: true }
    } else {
        DecoderView { buffer: records.flatten().subrange(offset(records, k), l), terminal: false }
    }
}

proof fn lemma_offsets(records: Seq<Seq<u8>>, i: int)
    requires
        0 <= i < records.len(),
    ensures
        offset(records, i + 1) == offset(records, i) + records[i].len(),
        offset(records, i + 1) <= records.flatten().len(),
        records.flatten().subrange(offset(records, i), offset(records, i + 1)) == records[i],
{
    let s = records.flatten();
    assert(records.take(i + 1) =~= records.take(i).push(records[i]));
    records.take(i).lemma_flatten_push(records[i]);
    assert(records =~= records.take(i + 1) + records.skip(i + 1));
    lemma_flatten_concat(records.take(i + 1), records.skip(i + 1));
    assert(s.subrange(0, offset(records, i + 1)) =~= records.take(i + 1).flatten());
    assert(s.subrange(offset(records, i), offset(records, i + 1)) =~= records[i]);
}

proof fn lemma_offset_monotone(records: Seq<Seq<u8>>, a: int, b: int)
    requires
        0 <= a <= b <= records.len(),
    ensures
        offset(records, a) <= offset(records, b),
        offset(records, b) <= records.flatten().len(),
    decreases b - a,
{
    if b == records.len() {
        assert(records.take(b) =~= records);
    } else {
        lemma_offsets(records, b);
    }
    if a < b {
        lemma_offsets(records, b - 1);
        lemma_offset_monotone(records, a, b - 1);
    }
}

proof fn lemma_fit_from(records: Seq<Seq<u8>>, i: int, l: int)
    requires
        0 <= i <= records.len(),
        offset(records, i) <= l,
    ensures
        fit(records, 0, l) == fit(records, i, l),
        i <= fit(records, i, l) <= records.len(),
    decreases i,
{
    lemma_fit_bounds(records, i, l);
    if i > 0 {
        lemma_offsets(records, i - 1);
        lemma_fit_from(records, i - 1, l);
    }
}

proof fn lemma_fit_bounds(records: Seq<Seq<u8>>, i: int, l: int)
    requires
        0 <= i <= records.len(),
    ensures
        i <= fit(records, i, l) <= records.len(),
    decreases records.len() - i,
{
    if i < records.len() && offset(records, i + 1) <= l {
        lemma_fit_bounds(records, i + 1, l);
    }
}

/// Draining the bytes of the stream from the start of record `i` to byte `l`
/// reads the records that lie whole in them.
proof fn lemma_drain_stream(records: Seq<Seq<u8>>, entries: Seq<Map<Seq<char>, JsonKind>>, i: int, l: int)
    requires
        well_formed_stream(records, entries),
        0 <= i < records.len(),
        offset(records, i) <= l <= records.flatten().len(),
    ensures
        drain(records.flatten().subrange(offset(records, i), l)) == (
            record_events(entries).subrange(i, fit(records, i, l)),
            state_at(records, fit(records, i, l), l),
        ),
    decreases records.len() - i,
{
    let s = records.flatten();
    let buf = s.subrange(offset(records, i), l);
    let r = records[i];
    lemma_offsets(records, i);
    assert(reads_as_record(r, entries[i]));
    if l == offset(records, i) {
        assert(buf.len() == 0);
        assert(record_events(entries).subrange(i, i) =~= Seq::<EventView>::empty());
    } else if l < offset(records, i + 1) {
        let m = l - offset(records, i);
        assert(buf =~= r.take(m));
        assert(json_front(r.take(m)) == Front::Truncated);
        assert(record_events(entries).subrange(i, i) =~= Seq::<EventView>::empty());
    } else {
        let x = s.subrange(offset(records, i + 1), l);
        assert(buf =~= r + x);
        assert(json_front(r + x) == (Front::Record { len: r.len(), entries: entries[i] }));
        assert(buf.subrange(r.len() as int, buf.len() as int) =~= x);
        let ev = EventView::Record(record_view(entries[i]));
        assert(record_events(entries)[i] == ev);
        if record_view(entries[i]).is_final {
            assert(i == records.len() - 1);
            assert(records.take(records.len() as int) =~= records);
            assert(fit(records, i + 1, l) == i + 1);
            assert(record_events(entries).subrange(i, i + 1) =~= seq![ev]);
        } else {
            assert(i + 1 < records.len());
            lemma_drain_stream(records, entries, i + 1, l);
            lemma_fit_bounds(records, i + 1, l);
            assert(record_events(entries).subrange(i, fit(records, i + 1, l)) =~= seq![ev]
                + record_events(entries).subrange(i + 1, fit(records, i + 1, l)));
        }
    }
}

proof fn lemma_flatten_prefix<A>(chunks: Seq<Seq<A>>, j: int)
    requires
        0 <= j <= chunks.len(),
    ensures
        chunks.take(j).flatten().len() <= chunks.flatten().len(),
        chunks.flatten().take(chunks.take(j).flatten().len() as int) == chunks.take(j).flatten(),
{
    assert(chunks =~= chunks.take(j) + chunks.skip(j));
    lemma_flatten_concat(chunks.take(j), chunks.skip(j));
    assert(chunks.flatten().take(chunks.take(j).flatten().len() as int) =~= chunks.take(j).flatten());
}

/// After the first `j` chunks of a re-chunked stream, the decoder has read the
/// records that lie whole in the bytes so far and holds the rest.
proof fn lemma_run_stream(
    records: Seq<Seq<u8>>,
    entries: Seq<Map<Seq<char>, JsonKind>>,
    chunks: Seq<Seq<u8>>,
    j: int,
)
    requires
        well_formed_stream(records, entries),
        chunks.flatten() == records.flatten(),
        0 <= j <= chunks.len(),
    ensures
        ({
            let l = chunks.take(j).flatten().len() as int;
            let k = fit(records, 0, l);
            run(chunks.take(j)) == (state_at(records, k, l), record_events(entries).take(k))
        }),
    decreases j,
{
    let s = records.flatten();
    let l = chunks.take(j).flatten().len() as int;
    lemma_flatten_prefix(chunks, j);
    if j == 0 {
        assert(chunks.take(0) =~= Seq::<Seq<u8>>::empty());
        assert(records.take(0) =~= Seq::<Seq<u8>>::empty());
        lemma_offsets(records, 0);
        assert(fit(records, 0, 0) == 0);
        assert(record_events(entries).take(0) =~= Seq::<EventView>::empty());
        assert(s.subrange(0, 0) =~= Seq::<u8>::empty());
    } else {
        let p = j - 1;
        lemma_run_stream(records, entries, chunks, p);
        lemma_flatten_prefix(chunks, p);
        let l0 = chunks.take(p).flatten().len() as int;
        let c = chunks[p];
        assert(chunks.take(j).drop_last() =~= chunks.take(p));
        assert(chunks.take(j) =~= chunks.take(p).push(c));
        chunks.take(p).lemma_flatten_push(c);
        assert(l == l0 + c.len());
        let k = fit(records, 0, l0);
        lemma_fit_bounds(records, 0, l0);
        assert(records.take(0) =~= Seq::<Seq<u8>>::empty());
        lemma_fit_facts(records, 0, l0);
        lemma_offset_monotone(records, 0, records.len() as int);
        assert(records.take(records.len() as int) =~= records);
        if k == records.len() {
            lemma_fit_from(records, k, l0);
            assert(fit(records, k, l0) == k);
            assert(l == l0);
            lemma_fit_from(records, k, l);
            assert(fit(records, k, l) == k);
            assert(record_events(entries).take(k) + Seq::<EventView>::empty() =~= record_events(entries).take(k));
        } else {
            // The bytes so far end inside record `k`.
            lemma_fit_from(records, k, l0);
            let buf = s.subrange(offset(records, k), l0);
            assert(s.take(l) == chunks.take(p).flatten() + c);
            assert(s.take(l0) == chunks.take(p).flatten());
            assert(l <= s.len());
            assert forall|t: int| 0 <= t < c.len() implies #[trigger] c[t] == s[l0 + t] by {
                assert(s.take(l)[l0 + t] == c[t]);
            }
            assert(buf + c =~= s.subrange(offset(records, k), l));
            lemma_drain_stream(records, entries, k, l);
            lemma_fit_from(records, k, l);
            let k2 = fit(records, 0, l);
            assert(record_events(entries).take(k) + record_events(entries).subrange(k, k2)
                =~= record_events(entries).take(k2));
        }
    }
}

proof fn lemma_fit_facts(records: Seq<Seq<u8>>, i: int, l: int)
    requires
        0 <= i <= records.len(),
        offset(records, i) <= l,
    ensures
        offset(records, fit(records, i, l)) <= l,
    decreases records.len() - i,
{
    if i < records.len() && offset(records, i + 1) <= l {
        lemma_fit_facts(records, i + 1, l);
    }
}

/// Cut anywhere, even inside a character, a stream of records where only the
/// last is terminal decodes to exactly those records, in order, and ends at
/// the terminal one; the text handed out is the text of the `response`
/// fields, in order.
pub proof fn lemma_rechunked_stream_decodes(
    records: Seq<Seq<u8>>,
    entries: Seq<Map<Seq<char>, JsonKind>>,
    chunks: Seq<Seq<u8>>,
)
    requires
        well_formed_stream(records, entries),
        chunks.flatten() == records.flatten(),
    ensures
        run(chunks).1 == record_events(entries),
        run(chunks).0.terminal,
        emitted_text(run(chunks).1) == response_text(entries),
{
    let n = chunks.len() as int;
    lemma_run_stream(records, entries, chunks, n);
    assert(chunks.take(n) =~= chunks);
    let l = records.flatten().len() as int;
    assert(records.take(records.len() as int) =~= records);
    lemma_fit_from(records, records.len() as int, l);
    assert(fit(records, records.len() as int, l) == records.len());
    assert(record_events(entries).take(records.len() as int) =~= record_events(entries));
    lemma_text_of_records(entries);
}

proof fn lemma_text_of_records(entries: Seq<Map<Seq<char>, JsonKind>>)
    ensures
        emitted_text(record_events(entries)) == response_text(entries),
    decreases entries.len(),
{
    if entries.len() > 0 {
        lemma_text_of_records(entries.drop_first());
        assert(record_events(entries).drop_first() =~= record_events(entries.drop_first()));
    }
}

/// The chunks with chunk `j` cut in two at byte `at`.
pub open spec fn split_chunk(chunks: Seq<Seq<u8>>, j: int, at: int) -> Seq<Seq<u8>> {
    chunks.take(j) + seq![chunks[j].take(at), chunks[j].skip(at)] + chunks.skip(j + 1)
}

/// Cutting one chunk of a stream of records in two, at any byte, leaves the
/// events the same.
pub proof fn lemma_split_chunk_keeps_events(
    records: Seq<Seq<u8>>,
    entries: Seq<Map<Seq<char>, JsonKind>>,
    chunks: Seq<Seq<u8>>,
    j: int,
    at: int,
)
    requires
        well_formed_stream(records, entries),
        chunks.flatten() == records.flatten(),
        0 <= j < chunks.len(),
        0 <= at <= chunks[j].len(),
    ensures
        run(split_chunk(chunks, j, at)).1 == run(chunks).1,
{
    let c = chunks[j];
    let pair = seq![c.take(at), c.skip(at)];
    assert(chunks =~= chunks.take(j) + seq![c] + chunks.skip(j + 1));
    lemma_flatten_concat(chunks.take(j) + seq![c], chunks.skip(j + 1));
    lemma_flatten_concat(chunks.take(j), seq![c]);
    lemma_flatten_concat(chunks.take(j) + pair, chunks.skip(j + 1));
    lemma_flatten_concat(chunks.take(j), pair);
    seq![c].lemma_flatten_one_element();
    assert(pair.drop_first() =~= seq![c.skip(at)]);
    seq![c.skip(at)].lemma_flatten_one_element();
    assert(pair.flatten() =~= c);
    lemma_rechunked_stream_decodes(records, entries, chunks);
    lemma_rechunked_stream_decodes(records, entries, split_chunk(chunks, j, at));
}

pub open spec fn is_final_event(e: EventView) -> bool {
    e matches EventView::Record(r) && r.is_final
}

/// A context is handed out only with a terminal record.
pub open spec fn context_only_final(e: EventView) -> bool {
    match e {
        EventView::Record(r) => r.has_context ==> r.is_final,
        EventView::Malformed(_) => true,
    }
}

/// Events where the terminal record, if any, comes last and alone, and a
/// context comes only with it.
pub open spec fn terminal_last(evs: Seq<EventView>) -> bool {
    &&& forall|i: int| 0 <= i < evs.len() ==> context_only_final(#[trigger] evs[i])
    &&& forall|i: int| 0 <= i < evs.len() && is_final_event(#[trigger] evs[i]) ==> i == evs.len() - 1
}

proof fn lemma_drain_shape(b: Seq<u8>)
    ensures
        drain(b).1.wf(),
        terminal_last(drain(b).0),
        drain(b).1.terminal <==> (drain(b).0.len() > 0 && is_final_event(drain(b).0.last())),
    decreases b.len(),
{
    if b.len() > 0 {
        let (d, e) = absorb_spec(b, json_front(b));
        if let Some(ev) = e {
            if !d.terminal && d.buffer.len() < b.len() {
                lemma_drain_shape(d.buffer);
                let rest = drain(d.buffer).0;
                assert((seq![ev] + rest).drop_first() =~= rest);
                assert forall|i: int| 0 < i < rest.len() + 1 implies (seq![ev] + rest)[i] == rest[i - 1] by {}
                if rest.len() > 0 {
                    assert((seq![ev] + rest).last() == rest.last());
                }
            }
        }
    }
}

/// A context is handed out only with the terminal record; the terminal
/// record is handed out at most once, and nothing comes after it; the decoder
/// is done exactly when it was handed out.
pub proof fn lemma_context_only_at_terminal(chunks: Seq<Seq<u8>>)
    ensures
        terminal_last(run(chunks).1),
        run(chunks).0.terminal <==> (run(chunks).1.len() > 0 && is_final_event(run(chunks).1.last())),
        run(chunks).0.wf(),
    decreases chunks.len(),
{
    if chunks.len() > 0 {
        lemma_context_only_at_terminal(chunks.drop_last());
        let (d, ev) = run(chunks.drop_last());
        if !d.terminal {
            let b = d.buffer + chunks.last();
            lemma_drain_shape(b);
            let ev2 = drain(b).0;
            assert forall|i: int| 0 <= i < ev.len() implies !is_final_event(#[trigger] ev[i]) by {}
            assert forall|i: int| 0 <= i < ev2.len() implies (ev + ev2)[ev.len() + i] == ev2[i] by {}
            assert forall|i: int| 0 <= i < ev.len() implies (ev + ev2)[i] == ev[i] by {}
            if ev2.len() > 0 {
                assert((ev + ev2).last() == ev2.last());
            } else {
                assert(ev + ev2 =~= ev);
            }
            assert forall|i: int| 0 <= i < (ev + ev2).len() && is_final_event(#[trigger] (ev + ev2)[i])
                implies i == (ev + ev2).len() - 1 by {
                if i >= ev.len() {
                    assert((ev + ev2)[i] == ev2[i - ev.len()]);
                }
            }
        } else {
            assert(ev + Seq::<EventView>::empty() =~= ev);
        }
    }
}

/// Bytes that read as invalid are reported once, as they were, and dropped;
/// a record that follows them is read as usual.
pub proof fn lemma_recovers_after_malformed(
    d: DecoderView,
    garbage: Seq<u8>,
    record: Seq<u8>,
    entries: Map<Seq<char>, JsonKind>,
)
    requires
        d.wf(),
        !d.terminal,
        (d.buffer + garbage).len() > 0,
        json_front(d.buffer + garbage) == Front::Invalid,
        reads_as_record(record, entries),
    ensures
        feed_spec(d, garbage).1 == seq![EventView::Malformed(d.buffer + garbage)],
        feed_spec(d, garbage).0 == DecoderView::initial(),
        feed_spec(feed_spec(d, garbage).0, record).1 == seq![EventView::Record(record_view(entries))],
{
    let b = d.buffer + garbage;
    assert(drain(Seq::<u8>::empty()).0 =~= Seq::<EventView>::empty());
    assert(seq![EventView::Malformed(b)] + Seq::<EventView>::empty() =~= seq![EventView::Malformed(b)]);
    let e = Seq::<u8>::empty();
    assert(e + record =~= record);
    assert(record + e =~= record);
    assert(json_front(record + e) == (Front::Record { len: record.len(), entries }));
    assert(record.subrange(record.len() as int, record.len() as int) =~= e);
    let ev = EventView::Record(record_view(entries));
    assert(seq![ev] + Seq::<EventView>::empty() =~= seq![ev]);
}

} // verus!
