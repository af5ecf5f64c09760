//! The library's laws: what the streaming injector guarantees for every
//! document, every payload, and every chunking, proved once over the
//! specification functions that the injector's contracts are stated with.

use vstd::prelude::*;

use crate::injector::{
    anchor_found, chunk_emitted, full_output, injection_point, lemma_scan_run_snoc,
    lemma_stream_emitted_snoc, lemma_stream_of_chunks, step_emit, stream_emitted,
};
use crate::scan::{lemma_scan_run_wf, scan_run, scan_step, Verdict, MAX_TAG_LEN};

verus! {

/// Exactly-once insertion.  While the anchor has not been found, the bytes
/// emitted so far plus the withheld candidate are exactly the document bytes
/// consumed — the payload appears nowhere.  Once the anchor is found, the
/// emitted bytes are exactly the document with the payload inserted at the
/// injection point — one insertion, and nothing else changed.
pub proof fn lemma_payload_exactly_once(doc: Seq<u8>, payload: Seq<u8>)
    ensures
        !anchor_found(doc) ==> stream_emitted(doc, payload) + scan_run(doc).pending == doc,
        anchor_found(doc) ==> {
            &&& 0 <= injection_point(doc) <= doc.len()
            &&& stream_emitted(doc, payload) == doc.subrange(0, injection_point(doc)) + payload
                + doc.subrange(injection_point(doc), doc.len() as int)
        },
    decreases doc.len(),
{
    if doc.len() == 0 {
        assert(stream_emitted(doc, payload) + scan_run(doc).pending =~= doc);
    } else {
        let d = doc.drop_last();
        let b = doc.last();
        lemma_payload_exactly_once(d, payload);
        lemma_scan_run_wf(d);
        assert(doc =~= d.push(b));
        lemma_scan_run_snoc(d, b);
        lemma_stream_emitted_snoc(d, b, payload);
        let s = scan_run(d);
        if anchor_found(d) {
            let k = injection_point(d);
            assert(injection_point(doc) == k);
            assert(doc.subrange(0, k) =~= d.subrange(0, k));
            assert(doc.subrange(k, doc.len() as int) =~= d.subrange(k, d.len() as int).push(b));
            assert(step_emit(s, b, payload) =~= seq![b]);
            assert(stream_emitted(doc, payload) =~= doc.subrange(0, k) + payload + doc.subrange(
                k,
                doc.len() as int,
            ));
        } else {
            match scan_step(s, b).1 {
                Verdict::Pass => {
                    assert(stream_emitted(doc, payload) + scan_run(doc).pending =~= doc);
                },
                Verdict::Hold => {
                    assert(stream_emitted(doc, payload) + scan_run(doc).pending =~= doc);
                },
                Verdict::Resolve => {
                    assert(anchor_found(doc));
                    assert(!anchor_found(d));
                    assert(injection_point(doc) == doc.len() as int);
                    assert(doc.subrange(0, doc.len() as int) =~= doc);
                    assert(doc.subrange(doc.len() as int, doc.len() as int) =~= Seq::<u8>::empty());
                    assert(stream_emitted(doc, payload) =~= doc + payload);
                    assert(doc + payload =~= doc.subrange(0, doc.len() as int) + payload
                        + doc.subrange(doc.len() as int, doc.len() as int));
                },
                Verdict::FlushPass => {
                    assert(stream_emitted(doc, payload) + scan_run(doc).pending =~= doc);
                },
                Verdict::FlushHold => {
                    assert(stream_emitted(doc, payload) + scan_run(doc).pending =~= doc);
                },
                Verdict::AbandonPass => {
                    assert(stream_emitted(doc, payload) + scan_run(doc).pending =~= doc);
                },
            }
        }
    }
}

/// Once found, the anchor stays found: consuming more bytes cannot unresolve
/// it, and the injection point is frozen where it first resolved.
pub proof fn lemma_anchor_monotone(doc: Seq<u8>)
    ensures
        doc.len() > 0 && anchor_found(doc.drop_last()) ==> anchor_found(doc),
        !anchor_found(doc) ==> injection_point(doc) == doc.len(),
{
    if doc.len() > 0 {
        lemma_scan_run_snoc(doc.drop_last(), doc.last());
        assert(doc =~= doc.drop_last().push(doc.last()));
    }
}

/// Round trip with single insertion.  The total output of a finalized stream
/// is the document with the payload inserted exactly once: immediately after
/// the closing `>` of the first `<head ...>` tag when one resolves before the
/// stream ends, else appended at the very end.
pub proof fn lemma_round_trip(doc: Seq<u8>, payload: Seq<u8>)
    ensures
        0 <= injection_point(doc) <= doc.len(),
        full_output(doc, payload) == doc.subrange(0, injection_point(doc)) + payload
            + doc.subrange(injection_point(doc), doc.len() as int),
        !anchor_found(doc) ==> injection_point(doc) == doc.len(),
{
    lemma_payload_exactly_once(doc, payload);
    lemma_anchor_monotone(doc);
    if !anchor_found(doc) {
        assert(doc.subrange(0, doc.len() as int) =~= doc);
        assert(doc.subrange(doc.len() as int, doc.len() as int) =~= Seq::<u8>::empty());
        assert(full_output(doc, payload) =~= doc + payload);
        assert(doc + payload =~= doc.subrange(0, doc.len() as int) + payload + doc.subrange(
            doc.len() as int,
            doc.len() as int,
        ));
    }
}

/// Chunk-boundary invariance.  Cutting a document anywhere changes nothing:
/// what the two chunks emit, concatenated, equals what the whole document
/// emits as a single chunk, byte for byte.  Longer chunkings reduce to this
/// case one cut at a time, since `write`'s contract gives each chunk's bytes
/// as `chunk_emitted` of the history and the chunk alone.
pub proof fn lemma_chunk_boundary_invariance(doc: Seq<u8>, cut: int, payload: Seq<u8>)
    requires
        0 <= cut <= doc.len(),
    ensures
        chunk_emitted(Seq::<u8>::empty(), doc.subrange(0, cut), payload) + chunk_emitted(
            doc.subrange(0, cut),
            doc.subrange(cut, doc.len() as int),
            payload,
        ) == stream_emitted(doc, payload),
        chunk_emitted(Seq::<u8>::empty(), doc, payload) == stream_emitted(doc, payload),
{
    let a = doc.subrange(0, cut);
    let c = doc.subrange(cut, doc.len() as int);
    lemma_stream_of_chunks(Seq::<u8>::empty(), a, payload);
    lemma_stream_of_chunks(a, c, payload);
    lemma_stream_of_chunks(Seq::<u8>::empty(), doc, payload);
    assert(Seq::<u8>::empty() + a =~= a);
    assert(Seq::<u8>::empty() + doc =~= doc);
    assert(a + c =~= doc);
    assert(stream_emitted(Seq::<u8>::empty(), payload) =~= Seq::<u8>::empty());
    assert(Seq::<u8>::empty() + chunk_emitted(Seq::<u8>::empty(), a, payload) =~= chunk_emitted(
        Seq::<u8>::empty(),
        a,
        payload,
    ));
    assert(stream_emitted(a, payload) + chunk_emitted(a, c, payload) =~= chunk_emitted(
        Seq::<u8>::empty(),
        a,
        payload,
    ) + chunk_emitted(a, c, payload));
}

/// When the anchor is found, the injection point sits immediately after a
/// `>`: the byte that closed the matched `<head ...>` tag.
pub proof fn lemma_injection_point_after_close(doc: Seq<u8>)
    requires
        anchor_found(doc),
    ensures
        1 <= injection_point(doc) <= doc.len(),
        doc[injection_point(doc) - 1] == 62,
    decreases doc.len(),
{
    lemma_payload_exactly_once(doc, Seq::<u8>::empty());
    let d = doc.drop_last();
    let b = doc.last();
    assert(doc =~= d.push(b));
    lemma_scan_run_snoc(d, b);
    if anchor_found(d) {
        lemma_injection_point_after_close(d);
        assert(doc[injection_point(doc) - 1] == d[injection_point(d) - 1]);
    } else {
        assert(scan_step(scan_run(d), b).1 is Resolve);
        assert(b == 62);
    }
}

/// Bounded memory.  Whatever the document and however it is chunked, the
/// scanner withholds at most [`MAX_TAG_LEN`] bytes, so the injector's carry
/// buffer — equal to the withheld bytes between calls — never exceeds that
/// fixed bound.
pub proof fn lemma_carry_bounded(doc: Seq<u8>)
    ensures
        scan_run(doc).pending.len() <= MAX_TAG_LEN,
{
    lemma_scan_run_wf(doc);
}

} // verus!
