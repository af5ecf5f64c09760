//! The streaming injector: drives the anchor scanner over successive chunks,
//! owns the bounded carry buffer, and emits, per call, a short list of output
//! slices whose concatenation is exactly what the caller must forward.
//!
//! The injector's whole behaviour is pinned by three specification functions
//! over the concatenated document alone: [`stream_emitted`] (what the `write`
//! calls emit, however the document is chunked), [`chunk_emitted`] (what one
//! chunk emits after a given history), and [`full_output`] (the total output
//! once the stream is finalized).  The laws module proves from these that the
//! payload is inserted exactly once, immediately after the anchor or at the
//! end of the stream.

use vstd::prelude::*;

use crate::scan::{
    lemma_scan_run_wf, scan_init, scan_run, scan_step, Locator, ScanState, Verdict, MAX_TAG_LEN,
};

verus! {

/// Most slices one `write` call can return: a carry flush, the bytes of the
/// chunk up to and including the matched tag, the payload, and the remainder
/// of the chunk.  Exceeding it is impossible, which the contracts prove.
pub const MAX_SLICES_PER_WRITE: usize = 4;

/// One span of output.  Slices referring to the chunk are valid only during
/// the call that returned them; the payload lives as long as the injector;
/// carried bytes are handed back by value.
#[derive(Debug)]
pub enum OutputSlice {
    /// The sub-span `start..end` of the chunk passed to the current call.
    Chunk { start: usize, end: usize },
    /// The whole payload, owned by the injector.
    Payload,
    /// Bytes withheld from earlier chunks, handed back by value.
    Carry(Vec<u8>),
}

/// The ordered list of slices one call emits; concatenating them in order
/// reproduces exactly the bytes to forward for that call.
#[derive(Debug)]
pub struct InjectorResult {
    /// The slices, in output order.
    pub slices: Vec<OutputSlice>,
}

/// Progress of one injector instance.
#[derive(Clone, Copy, Debug, PartialEq, Eq, Structural)]
pub enum InjectorState {
    /// Still searching for the anchor.
    Scanning,
    /// The payload has been emitted; everything else passes through.
    Injected,
    /// `end` was called; no further bytes may be consumed or emitted.
    Finalized,
}

/// Calling `write` or `end` on a finalized injector, or `end` twice: an
/// integration bug, reported distinctly from anything about document bytes.
#[derive(Clone, Copy, Debug, PartialEq, Eq, Structural)]
pub struct UsageError;

/// The bytes a slice stands for, given the chunk of the current call and the
/// payload.
pub open spec fn slice_bytes(s: OutputSlice, chunk: Seq<u8>, payload: Seq<u8>) -> Seq<u8> {
    match s {
        OutputSlice::Chunk { start, end } => chunk.subrange(start as int, end as int),
        OutputSlice::Payload => payload,
        OutputSlice::Carry(v) => v@,
    }
}

/// A slice's offsets lie within the chunk it refers to.
pub open spec fn slice_wf(s: OutputSlice, chunk_len: int) -> bool {
    match s {
        OutputSlice::Chunk { start, end } => start <= end <= chunk_len,
        _ => true,
    }
}

/// The concatenation, in order, of the bytes the slices stand for.
pub open spec fn slices_bytes(ss: Seq<OutputSlice>, chunk: Seq<u8>, payload: Seq<u8>) -> Seq<u8>
    decreases ss.len(),
{
    if ss.len() == 0 {
        Seq::empty()
    } else {
        slices_bytes(ss.drop_last(), chunk, payload) + slice_bytes(ss.last(), chunk, payload)
    }
}

/// Every slice's offsets lie within the chunk.
pub open spec fn slices_wf(ss: Seq<OutputSlice>, chunk_len: int) -> bool {
    forall|i: int| 0 <= i < ss.len() ==> slice_wf(#[trigger] ss[i], chunk_len)
}

/// The bytes one byte of input releases into the output, given the scanner
/// state it meets: pass-through bytes, a flushed candidate, and, when the byte
/// closes the anchor tag, the tag followed by the payload.
pub open spec fn step_emit(s: ScanState, b: u8, payload: Seq<u8>) -> Seq<u8> {
    match scan_step(s, b).1 {
        Verdict::Pass => seq![b],
        Verdict::Hold => Seq::empty(),
        Verdict::Resolve => s.pending.push(b) + payload,
        Verdict::FlushPass => s.pending.push(b),
        Verdict::FlushHold => s.pending,
        Verdict::AbandonPass => s.pending.push(b),
    }
}

/// Everything the `write` calls emit while consuming `doc`, in order.  It is a
/// function of the concatenated document alone: how the caller cuts `doc` into
/// chunks cannot change it.
pub open spec fn stream_emitted(doc: Seq<u8>, payload: Seq<u8>) -> Seq<u8>
    decreases doc.len(),
{
    if doc.len() == 0 {
        Seq::empty()
    } else {
        stream_emitted(doc.drop_last(), payload) + step_emit(
            scan_run(doc.drop_last()),
            doc.last(),
            payload,
        )
    }
}

/// What one chunk `c` emits when written after the bytes `h` have already
/// been consumed.
pub open spec fn chunk_emitted(h: Seq<u8>, c: Seq<u8>, payload: Seq<u8>) -> Seq<u8>
    decreases c.len(),
{
    if c.len() == 0 {
        Seq::empty()
    } else {
        chunk_emitted(h, c.drop_last(), payload) + step_emit(
            scan_run(h + c.drop_last()),
            c.last(),
            payload,
        )
    }
}

/// Has the anchor been found within `doc`?
pub open spec fn anchor_found(doc: Seq<u8>) -> bool {
    scan_run(doc).mode is Resolved
}

/// The offset in `doc` after which the payload sits: the end of the shortest
/// prefix of `doc` in which the anchor resolves, or the end of the document
/// when it never does (the fallback position).
pub open spec fn injection_point(doc: Seq<u8>) -> int
    decreases doc.len(),
{
    if doc.len() == 0 {
        0
    } else if anchor_found(doc.drop_last()) {
        injection_point(doc.drop_last())
    } else {
        doc.len() as int
    }
}

/// The total output of a whole session: everything `write` emitted while
/// consuming `doc`, plus what `end` adds — nothing when the anchor was found,
/// else the withheld candidate bytes followed by the payload as the fallback.
pub open spec fn full_output(doc: Seq<u8>, payload: Seq<u8>) -> Seq<u8> {
    if anchor_found(doc) {
        stream_emitted(doc, payload)
    } else {
        stream_emitted(doc, payload) + scan_run(doc).pending + payload
    }
}

/// Running the scanner over one more byte steps it once.
pub proof fn lemma_scan_run_snoc(x: Seq<u8>, b: u8)
    ensures
        scan_run(x.push(b)) == scan_step(scan_run(x), b).0,
{
    let y = x.push(b);
    assert(y.drop_last() =~= x);
    assert(y.last() == b);
}

/// Emitting one more byte extends the emitted stream by that byte's emission.
pub proof fn lemma_stream_emitted_snoc(x: Seq<u8>, b: u8, payload: Seq<u8>)
    ensures
        stream_emitted(x.push(b), payload) == stream_emitted(x, payload) + step_emit(
            scan_run(x),
            b,
            payload,
        ),
{
    let y = x.push(b);
    assert(y.drop_last() =~= x);
    assert(y.last() == b);
}

/// One more byte of a chunk extends that chunk's emission by the byte's
/// emission against the state reached so far.
pub proof fn lemma_chunk_emitted_snoc(h: Seq<u8>, c: Seq<u8>, i: int, payload: Seq<u8>)
    requires
        0 <= i < c.len(),
    ensures
        chunk_emitted(h, c.subrange(0, i + 1), payload) == chunk_emitted(
            h,
            c.subrange(0, i),
            payload,
        ) + step_emit(scan_run(h + c.subrange(0, i)), c[i], payload),
{
    let t = c.subrange(0, i + 1);
    assert(t.drop_last() =~= c.subrange(0, i));
    assert(t.last() == c[i]);
}

/// The scanner state after a history plus a chunk prefix steps by the next
/// chunk byte.
pub proof fn lemma_scan_run_chunk_snoc(h: Seq<u8>, c: Seq<u8>, i: int)
    requires
        0 <= i < c.len(),
    ensures
        scan_run(h + c.subrange(0, i + 1)) == scan_step(scan_run(h + c.subrange(0, i)), c[i]).0,
{
    assert(h + c.subrange(0, i + 1) =~= (h + c.subrange(0, i)).push(c[i]));
    lemma_scan_run_snoc(h + c.subrange(0, i), c[i]);
}

/// Writing a chunk after a history emits exactly the chunk's emission: the
/// stream's output telescopes over chunks, so any chunking of a document
/// yields the same concatenated output.
pub proof fn lemma_stream_of_chunks(h: Seq<u8>, c: Seq<u8>, payload: Seq<u8>)
    ensures
        stream_emitted(h + c, payload) == stream_emitted(h, payload) + chunk_emitted(
            h,
            c,
            payload,
        ),
    decreases c.len(),
{
    if c.len() == 0 {
        assert(h + c =~= h);
        assert(stream_emitted(h, payload) + chunk_emitted(h, c, payload) =~= stream_emitted(
            h,
            payload,
        ));
    } else {
        let c0 = c.drop_last();
        let b = c.last();
        lemma_stream_of_chunks(h, c0, payload);
        assert(h + c =~= (h + c0).push(b));
        lemma_stream_emitted_snoc(h + c0, b, payload);
        assert(stream_emitted(h, payload) + (chunk_emitted(h, c0, payload) + step_emit(
            scan_run(h + c0),
            b,
            payload,
        )) =~= (stream_emitted(h, payload) + chunk_emitted(h, c0, payload)) + step_emit(
            scan_run(h + c0),
            b,
            payload,
        ));
    }
}

/// Appending a slice appends its bytes.
pub proof fn lemma_slices_bytes_push(
    ss: Seq<OutputSlice>,
    s: OutputSlice,
    chunk: Seq<u8>,
    payload: Seq<u8>,
)
    ensures
        slices_bytes(ss.push(s), chunk, payload) == slices_bytes(ss, chunk, payload)
            + slice_bytes(s, chunk, payload),
{
    let t = ss.push(s);
    assert(t.drop_last() =~= ss);
    assert(t.last() == s);
}

/// One more slice of a prefix extends the concatenation by that slice's bytes.
pub proof fn lemma_slices_bytes_take(
    ss: Seq<OutputSlice>,
    i: int,
    chunk: Seq<u8>,
    payload: Seq<u8>,
)
    requires
        0 <= i < ss.len(),
    ensures
        slices_bytes(ss.subrange(0, i + 1), chunk, payload) == slices_bytes(
            ss.subrange(0, i),
            chunk,
            payload,
        ) + slice_bytes(ss[i], chunk, payload),
{
    let t = ss.subrange(0, i + 1);
    assert(t.drop_last() =~= ss.subrange(0, i));
    assert(t.last() == ss[i]);
}

impl InjectorResult {
    /// An empty result: nothing to emit.
    pub fn empty() -> (r: InjectorResult)
        ensures
            r.slices@.len() == 0,
    {
        InjectorResult { slices: Vec::new() }
    }

    /// Append to `out` the bytes this result stands for, resolving chunk
    /// spans against `chunk` and payload references against `payload`.
    pub fn gather(&self, chunk: &[u8], payload: &Vec<u8>, out: &mut Vec<u8>)
        requires
            slices_wf(self.slices@, chunk@.len() as int),
        ensures
            final(out)@ == old(out)@ + slices_bytes(self.slices@, chunk@, payload@),
    {
        let n = self.slices.len();
        let ghost out0 = out@;
        proof {
            assert(self.slices@.subrange(0, 0) =~= Seq::<OutputSlice>::empty());
            assert(out@ =~= out0 + slices_bytes(
                self.slices@.subrange(0, 0),
                chunk@,
                payload@,
            ));
        }
        let mut i: usize = 0;
        while i < n
            invariant
                i <= n,
                n == self.slices@.len(),
                slices_wf(self.slices@, chunk@.len() as int),
                out@ == out0 + slices_bytes(self.slices@.subrange(0, i as int), chunk@, payload@),
            decreases n - i,
        {
            proof {
                lemma_slices_bytes_take(self.slices@, i as int, chunk@, payload@);
                assert(slice_wf(self.slices@[i as int], chunk@.len() as int));
            }
            match &self.slices[i] {
                OutputSlice::Chunk { start, end } => {
                    out.extend_from_slice(&chunk[*start..*end]);
                },
                OutputSlice::Payload => {
                    out.extend_from_slice(payload.as_slice());
                },
                OutputSlice::Carry(v) => {
                    out.extend_from_slice(v.as_slice());
                },
            }
            i = i + 1;
        }
        proof {
            assert(self.slices@.subrange(0, n as int) =~= self.slices@);
        }
    }
}

/// The streaming injector.  One instance serves one document: feed the
/// document with `write`, finish with `end`.
pub struct Injector {
    payload: Vec<u8>,
    locator: Locator,
    carry: Vec<u8>,
    state: InjectorState,
    hist: Ghost<Seq<u8>>,
    emitted: Ghost<Seq<u8>>,
}

impl Injector {
    /// Every document byte consumed so far, in order.
    pub closed spec fn history(&self) -> Seq<u8> {
        self.hist@
    }

    /// The payload this instance will insert.
    pub closed spec fn spec_payload(&self) -> Seq<u8> {
        self.payload@
    }

    /// Everything emitted so far, in order.
    pub closed spec fn emitted_bytes(&self) -> Seq<u8> {
        self.emitted@
    }

    /// The instance's progress.
    pub closed spec fn status(&self) -> InjectorState {
        self.state
    }

    /// The bytes currently withheld in the carry buffer.
    pub closed spec fn carry_bytes(&self) -> Seq<u8> {
        self.carry@
    }

    /// The injector's invariant: the scanner and the carry buffer agree with
    /// the scanner specification run over the whole history, and the emitted
    /// bytes are exactly what the specification says the history emits.
    pub closed spec fn wf(&self) -> bool {
        let s = scan_run(self.hist@);
        &&& self.locator.wf()
        &&& match self.state {
            InjectorState::Scanning => {
                &&& !(s.mode is Resolved)
                &&& self.locator@ == s
                &&& self.carry@ == s.pending
                &&& self.emitted@ == stream_emitted(self.hist@, self.payload@)
            },
            InjectorState::Injected => {
                &&& s.mode is Resolved
                &&& self.carry@.len() == 0
                &&& self.emitted@ == stream_emitted(self.hist@, self.payload@)
            },
            InjectorState::Finalized => {
                &&& self.carry@.len() == 0
                &&& self.emitted@ == full_output(self.hist@, self.payload@)
            },
        }
    }

    /// A fresh injector owning `payload`, ready to scan a document.
    pub fn new(payload: Vec<u8>) -> (r: Injector)
        ensures
            r.wf(),
            r.history() == Seq::<u8>::empty(),
            r.spec_payload() == payload@,
            r.emitted_bytes() == Seq::<u8>::empty(),
            r.status() is Scanning,
    {
        let r = Injector {
            payload,
            locator: Locator::new(),
            carry: Vec::new(),
            state: InjectorState::Scanning,
            hist: Ghost(Seq::empty()),
            emitted: Ghost(Seq::empty()),
        };
        proof {
            assert(scan_run(r.hist@) == scan_init());
            assert(r.carry@ =~= scan_run(r.hist@).pending);
            assert(r.emitted@ =~= stream_emitted(r.hist@, r.payload@));
        }
        r
    }

    /// The payload, for resolving [`OutputSlice::Payload`] slices.
    pub fn payload(&self) -> (r: &Vec<u8>)
        ensures
            r@ == self.spec_payload(),
    {
        &self.payload
    }

    /// The instance's progress.
    pub fn state(&self) -> (r: InjectorState)
        ensures
            r == self.status(),
    {
        self.state
    }

    /// Consume one chunk of the document and return the slices to forward for
    /// it.  Never fails on document bytes, however malformed; fails only when
    /// called after `end`.  The slices' concatenation is exactly what the
    /// specification says this chunk emits after the bytes already written,
    /// so any chunking of a document produces the same total output.
    #[verifier::rlimit(100)]
    pub fn write(&mut self, chunk: &[u8]) -> (r: Result<InjectorResult, UsageError>)
        requires
            old(self).wf(),
        ensures
            final(self).wf(),
            old(self).status() is Finalized ==> r is Err && *final(self) == *old(self),
            !(old(self).status() is Finalized) ==> (r matches Ok(res) && {
                &&& final(self).history() == old(self).history() + chunk@
                &&& final(self).spec_payload() == old(self).spec_payload()
                &&& !(final(self).status() is Finalized)
                &&& (final(self).status() is Injected) == anchor_found(final(self).history())
                &&& slices_wf(res.slices@, chunk@.len() as int)
                &&& res.slices@.len() <= MAX_SLICES_PER_WRITE
                &&& slices_bytes(res.slices@, chunk@, old(self).spec_payload()) == chunk_emitted(
                    old(self).history(),
                    chunk@,
                    old(self).spec_payload(),
                )
                &&& final(self).emitted_bytes() == old(self).emitted_bytes() + slices_bytes(
                    res.slices@,
                    chunk@,
                    old(self).spec_payload(),
                )
                &&& final(self).emitted_bytes() == stream_emitted(
                    final(self).history(),
                    final(self).spec_payload(),
                )
                &&& final(self).carry_bytes().len() <= MAX_TAG_LEN
            }),
    {
        if matches!(self.state, InjectorState::Finalized) {
            return Err(UsageError);
        }
        let n = chunk.len();
        let ghost h0 = self.hist@;
        let ghost pay = self.payload@;
        let mut slices: Vec<OutputSlice> = Vec::new();
        let mut i: usize = 0;
        let mut pass_lo: usize = 0;
        let mut cand_lo: usize = 0;
        proof {
            lemma_scan_run_wf(h0);
            assert(chunk@.subrange(0, 0) =~= Seq::<u8>::empty());
            assert(h0 + chunk@.subrange(0, 0) =~= h0);
            assert(slices@.subrange(0, 0) =~= Seq::<OutputSlice>::empty());
            assert(chunk_emitted(h0, chunk@.subrange(0, 0), pay) =~= Seq::<u8>::empty());
            if self.state is Scanning {
                assert(scan_run(self.hist@).pending =~= self.carry@ + chunk@.subrange(0, 0));
            }
        }
        while i < n
            invariant
                i <= n,
                n == chunk@.len(),
                pass_lo <= cand_lo <= i,
                self.payload@ == pay,
                self.payload == old(self).payload,
                self.hist@ == h0 + chunk@.subrange(0, i as int),
                self.locator.wf(),
                slices_wf(slices@, n as int),
                self.carry@.len() <= MAX_TAG_LEN,
                ({
                    let s = scan_run(self.hist@);
                    match self.state {
                        InjectorState::Scanning => {
                            &&& !(s.mode is Resolved)
                            &&& self.locator@ == s
                            &&& s.pending == self.carry@ + chunk@.subrange(
                                cand_lo as int,
                                i as int,
                            )
                            &&& (self.carry@.len() > 0 ==> pass_lo == 0 && cand_lo == 0)
                            &&& slices@.len() <= 1
                            &&& (slices@.len() == 1 ==> self.carry@.len() == 0)
                        },
                        InjectorState::Injected => {
                            &&& s.mode is Resolved
                            &&& cand_lo == i
                            &&& self.carry@.len() == 0
                            &&& slices@.len() <= 3
                        },
                        InjectorState::Finalized => false,
                    }
                }),
                slices_bytes(slices@, chunk@, pay) + chunk@.subrange(pass_lo as int, cand_lo as int)
                    == chunk_emitted(h0, chunk@.subrange(0, i as int), pay),
                self.emitted@ == old(self).emitted@,
            decreases n - i,
        {
            let ghost prev = self.hist@;
            let ghost s = scan_run(prev);
            let b = chunk[i];
            proof {
                lemma_chunk_emitted_snoc(h0, chunk@, i as int, pay);
                lemma_scan_run_chunk_snoc(h0, chunk@, i as int);
                assert(h0 + chunk@.subrange(0, i as int + 1) =~= prev.push(b));
            }
            if matches!(self.state, InjectorState::Injected) {
                proof {
                    assert(chunk@.subrange(pass_lo as int, i as int + 1) =~= chunk@.subrange(
                        pass_lo as int,
                        i as int,
                    ).push(b));
                }
                cand_lo = i + 1;
            } else {
                let v = self.locator.push(b);
                let ghost s2 = scan_run(prev.push(b));
                match v {
                    Verdict::Pass => {
                        // The scanner held nothing (idle or abandoned); the
                        // byte joins the pass-through range.
                        proof {
                            lemma_scan_run_wf(prev);
                            assert(s.pending.len() == 0);
                            assert(self.carry@.len() == 0);
                            assert(cand_lo == i);
                            assert(chunk@.subrange(pass_lo as int, i as int + 1) =~= chunk@
                                .subrange(pass_lo as int, i as int).push(b));
                            assert(step_emit(s, b, pay) =~= seq![b]);
                            assert(s2.pending =~= self.carry@ + chunk@.subrange(
                                i as int + 1,
                                i as int + 1,
                            ));
                        }
                        cand_lo = i + 1;
                    },
                    Verdict::Hold => {
                        proof {
                            assert(s2.pending =~= self.carry@ + chunk@.subrange(
                                cand_lo as int,
                                i as int + 1,
                            ));
                            assert(step_emit(s, b, pay) =~= Seq::<u8>::empty());
                        }
                    },
                    Verdict::Resolve => {
                        proof {
                            assert(step_emit(s, b, pay) == s.pending.push(b) + pay);
                        }
                        if self.carry.len() > 0 {
                            // The tag began in an earlier chunk: complete the
                            // withheld copy and emit it as one span.
                            self.carry.extend_from_slice(&chunk[cand_lo..i + 1]);
                            let mut taken: Vec<u8> = Vec::new();
                            core::mem::swap(&mut taken, &mut self.carry);
                            proof {
                                assert(taken@ =~= s.pending.push(b));
                                lemma_slices_bytes_push(slices@, OutputSlice::Carry(taken), chunk@, pay);
                            }
                            slices.push(OutputSlice::Carry(taken));
                        } else {
                            // The whole tag lies in this chunk: one span from
                            // the pass-through start through the closing `>`.
                            proof {
                                assert(chunk@.subrange(pass_lo as int, i as int + 1) =~= chunk@
                                    .subrange(pass_lo as int, cand_lo as int) + s.pending.push(b));
                                lemma_slices_bytes_push(
                                    slices@,
                                    OutputSlice::Chunk { start: pass_lo, end: (i + 1) as usize },
                                    chunk@,
                                    pay,
                                );
                            }
                            slices.push(OutputSlice::Chunk { start: pass_lo, end: i + 1 });
                        }
                        proof {
                            lemma_slices_bytes_push(slices@, OutputSlice::Payload, chunk@, pay);
                        }
                        slices.push(OutputSlice::Payload);
                        self.state = InjectorState::Injected;
                        pass_lo = i + 1;
                        cand_lo = i + 1;
                        proof {
                            assert(chunk@.subrange(pass_lo as int, cand_lo as int) =~= Seq::<
                                u8,
                            >::empty());
                        }
                    },
                    Verdict::FlushPass | Verdict::AbandonPass => {
                        proof {
                            assert(step_emit(s, b, pay) == s.pending.push(b));
                        }
                        if self.carry.len() > 0 {
                            let mut taken: Vec<u8> = Vec::new();
                            core::mem::swap(&mut taken, &mut self.carry);
                            proof {
                                lemma_slices_bytes_push(slices@, OutputSlice::Carry(taken), chunk@, pay);
                                assert(chunk@.subrange(pass_lo as int, cand_lo as int) =~= Seq::<
                                    u8,
                                >::empty());
                                assert(taken@ + chunk@.subrange(0, i as int + 1) =~= taken@
                                    + chunk@.subrange(cand_lo as int, i as int) + seq![b]);
                            }
                            slices.push(OutputSlice::Carry(taken));
                            cand_lo = i + 1;
                            proof {
                                assert(s2.pending =~= self.carry@ + chunk@.subrange(
                                    cand_lo as int,
                                    i as int + 1,
                                ));
                            }
                        } else {
                            proof {
                                assert(chunk@.subrange(pass_lo as int, i as int + 1) =~= chunk@
                                    .subrange(pass_lo as int, cand_lo as int) + s.pending.push(b));
                                assert(s2.pending =~= Seq::<u8>::empty() + chunk@.subrange(
                                    i as int + 1,
                                    i as int + 1,
                                ));
                            }
                            cand_lo = i + 1;
                        }
                    },
                    Verdict::FlushHold => {
                        proof {
                            assert(step_emit(s, b, pay) == s.pending);
                        }
                        if self.carry.len() > 0 {
                            let mut taken: Vec<u8> = Vec::new();
                            core::mem::swap(&mut taken, &mut self.carry);
                            proof {
                                lemma_slices_bytes_push(slices@, OutputSlice::Carry(taken), chunk@, pay);
                                assert(chunk@.subrange(pass_lo as int, cand_lo as int) =~= Seq::<
                                    u8,
                                >::empty());
                                assert(taken@ + chunk@.subrange(0, i as int) =~= taken@ + chunk@
                                    .subrange(cand_lo as int, i as int));
                            }
                            slices.push(OutputSlice::Carry(taken));
                            cand_lo = i;
                            proof {
                                assert(s2.pending =~= self.carry@ + chunk@.subrange(
                                    i as int,
                                    i as int + 1,
                                ));
                            }
                        } else {
                            proof {
                                assert(chunk@.subrange(pass_lo as int, i as int) =~= chunk@
                                    .subrange(pass_lo as int, cand_lo as int) + s.pending);
                                assert(s2.pending =~= Seq::<u8>::empty() + chunk@.subrange(
                                    i as int,
                                    i as int + 1,
                                ));
                            }
                            cand_lo = i;
                        }
                    },
                }
            }
            proof {
                let ghost h1 = prev.push(b);
                self.hist = Ghost(h1);
            }
            i = i + 1;
        }
        proof {
            assert(chunk@.subrange(0, n as int) =~= chunk@);
        }
        // Materialize the accumulated pass-through span, and withhold any
        // open candidate tail of this chunk into the carry buffer.
        if matches!(self.state, InjectorState::Scanning) {
            if pass_lo < cand_lo {
                proof {
                    lemma_slices_bytes_push(
                        slices@,
                        OutputSlice::Chunk { start: pass_lo, end: cand_lo },
                        chunk@,
                        pay,
                    );
                }
                slices.push(OutputSlice::Chunk { start: pass_lo, end: cand_lo });
            } else {
                proof {
                    assert(chunk@.subrange(pass_lo as int, cand_lo as int) =~= Seq::<u8>::empty());
                }
            }
            self.carry.extend_from_slice(&chunk[cand_lo..n]);
        } else {
            if pass_lo < cand_lo {
                proof {
                    lemma_slices_bytes_push(
                        slices@,
                        OutputSlice::Chunk { start: pass_lo, end: cand_lo },
                        chunk@,
                        pay,
                    );
                }
                slices.push(OutputSlice::Chunk { start: pass_lo, end: cand_lo });
            } else {
                proof {
                    assert(chunk@.subrange(pass_lo as int, cand_lo as int) =~= Seq::<u8>::empty());
                }
            }
        }
        proof {
            assert(self.hist@ =~= h0 + chunk@);
            lemma_scan_run_wf(self.hist@);
            lemma_stream_of_chunks(h0, chunk@, pay);
            assert(slices_bytes(slices@, chunk@, pay) =~= chunk_emitted(h0, chunk@, pay));
            let ghost e1 = self.emitted@ + slices_bytes(slices@, chunk@, pay);
            self.emitted = Ghost(e1);
            assert(self.emitted@ =~= stream_emitted(self.hist@, pay));
            if self.state is Scanning {
                assert(self.carry@ =~= scan_run(self.hist@).pending);
            }
        }
        Ok(InjectorResult { slices })
    }

    /// Finalize the stream.  When the anchor was already found nothing is
    /// pending and the result is empty; otherwise the withheld candidate
    /// bytes pass through and the payload follows as the end-of-stream
    /// fallback.  Fails, changing nothing, when called twice.
    pub fn end(&mut self) -> (r: Result<InjectorResult, UsageError>)
        requires
            old(self).wf(),
        ensures
            final(self).wf(),
            old(self).status() is Finalized ==> r is Err && *final(self) == *old(self),
            !(old(self).status() is Finalized) ==> (r matches Ok(res) && {
                &&& final(self).status() is Finalized
                &&& final(self).history() == old(self).history()
                &&& final(self).spec_payload() == old(self).spec_payload()
                &&& slices_wf(res.slices@, 0)
                &&& res.slices@.len() <= 2
                &&& final(self).emitted_bytes() == full_output(
                    old(self).history(),
                    old(self).spec_payload(),
                )
                &&& final(self).emitted_bytes() == old(self).emitted_bytes() + slices_bytes(
                    res.slices@,
                    Seq::<u8>::empty(),
                    old(self).spec_payload(),
                )
            }),
    {
        match self.state {
            InjectorState::Finalized => Err(UsageError),
            InjectorState::Injected => {
                self.state = InjectorState::Finalized;
                let r = InjectorResult::empty();
                proof {
                    assert(slices_bytes(r.slices@, Seq::<u8>::empty(), self.payload@) =~= Seq::<
                        u8,
                    >::empty());
                    assert(self.emitted@ + slices_bytes(
                        r.slices@,
                        Seq::<u8>::empty(),
                        self.payload@,
                    ) =~= self.emitted@);
                }
                Ok(r)
            },
            InjectorState::Scanning => {
                let ghost pay = self.payload@;
                let mut taken: Vec<u8> = Vec::new();
                core::mem::swap(&mut taken, &mut self.carry);
                let mut slices: Vec<OutputSlice> = Vec::new();
                proof {
                    lemma_slices_bytes_push(slices@, OutputSlice::Carry(taken), Seq::empty(), pay);
                }
                slices.push(OutputSlice::Carry(taken));
                proof {
                    lemma_slices_bytes_push(slices@, OutputSlice::Payload, Seq::empty(), pay);
                }
                slices.push(OutputSlice::Payload);
                self.state = InjectorState::Finalized;
                proof {
                    let ghost e1 = self.emitted@ + slices_bytes(slices@, Seq::empty(), pay);
                    self.emitted = Ghost(e1);
                    assert(slices@.subrange(0, 0) =~= Seq::<OutputSlice>::empty());
                    assert(self.emitted@ =~= stream_emitted(self.hist@, pay) + scan_run(
                        self.hist@,
                    ).pending + pay);
                }
                Ok(InjectorResult { slices })
            },
        }
    }
}

} // verus!
