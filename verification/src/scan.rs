//! Incremental recognition of the injection anchor: the first case-insensitive
//! `<head ...>` (or self-closing `<head/>`) opening tag of a byte stream.
//!
//! The scanner is a byte-at-a-time state machine.  Its transition function is
//! given once, as the specification [`scan_step`], and the executable
//! [`Locator`] is proved to follow it byte for byte.  Folding the transition
//! over a whole document ([`scan_run`]) defines where the anchor sits, so that
//! every property of the streaming injector can be stated over the document
//! alone, independent of how it was cut into chunks.

use vstd::prelude::*;

verus! {

/// Bound on the number of bytes a single tag candidate may span.  A candidate
/// whose closing `>` has not appeared within this many bytes is given up, and
/// the document falls back to end-of-stream injection.  This caps the carry
/// buffer, and with it the injector's memory, whatever the input.
pub const MAX_TAG_LEN: usize = 512;

/// Quoting context inside the body of a tag candidate.  A `>` inside a quoted
/// attribute value does not close the tag.
#[derive(Clone, Copy, Debug)]
pub enum Quote {
    /// Outside any quoted span.
    Unquoted,
    /// Inside a single-quoted attribute value.
    Single,
    /// Inside a double-quoted attribute value.
    Double,
}

/// Progress of the anchor search.
#[derive(Clone, Copy, Debug)]
pub enum ScanMode {
    /// No candidate in progress: looking for the `<` of a `<head ...>` tag.
    Idle,
    /// Matched `<` plus the first `k` letters of `head`, `0 <= k <= 4`.
    Tagname(u8),
    /// Matched `<head` plus a delimiter; scanning the tag body for the
    /// closing `>`, tracking quoted spans.
    Body(Quote),
    /// The anchor was found: its closing `>` has been consumed.
    Resolved,
    /// The length budget ran out: the search is over for this document and
    /// the end-of-stream fallback applies.
    Abandoned,
}

/// Specification-level state of the scanner: the mode together with the bytes
/// of the unresolved candidate consumed so far but not yet releasable.
pub struct ScanState {
    /// Progress of the search.
    pub mode: ScanMode,
    /// Bytes of the in-progress candidate, oldest first.  Empty unless the
    /// mode is `Tagname` or `Body`.
    pub pending: Seq<u8>,
}

/// What one byte does to the stream, as reported by the scanner.
#[derive(Clone, Copy, Debug)]
pub enum Verdict {
    /// The byte passes through; no candidate is in progress.
    Pass,
    /// The byte is withheld as part of the candidate.
    Hold,
    /// The byte closes the anchor tag: the candidate plus this byte form the
    /// matched tag, after which the payload belongs.
    Resolve,
    /// The candidate is not a `<head ...>` tag after all: its bytes pass
    /// through, and so does this byte.
    FlushPass,
    /// The candidate is not a `<head ...>` tag after all: its bytes pass
    /// through, and this byte (a `<`) starts a fresh candidate.
    FlushHold,
    /// The length budget ran out: the candidate's bytes and this byte pass
    /// through, and the search is over for this document.
    AbandonPass,
}

/// The `k`-th lowercase letter of `head`.
pub open spec fn head_letter(k: int) -> u8 {
    if k == 0 {
        104u8  // 'h'
    } else if k == 1 {
        101u8  // 'e'
    } else if k == 2 {
        97u8  // 'a'
    } else {
        100u8  // 'd'
    }
}

/// Does `b` match the `k`-th letter of `head`, case-insensitively?
pub open spec fn is_head_letter(k: int, b: u8) -> bool {
    b == head_letter(k) || b + 32 == head_letter(k)
}

/// ASCII whitespace as it may separate a tag name from its attributes.
pub open spec fn is_ws(b: u8) -> bool {
    b == 32 || b == 9 || b == 10 || b == 12 || b == 13
}

/// Quoting context after reading `b`.
pub open spec fn next_quote(q: Quote, b: u8) -> Quote {
    match q {
        Quote::Unquoted => if b == 34 {
            Quote::Double
        } else if b == 39 {
            Quote::Single
        } else {
            Quote::Unquoted
        },
        Quote::Double => if b == 34 {
            Quote::Unquoted
        } else {
            Quote::Double
        },
        Quote::Single => if b == 39 {
            Quote::Unquoted
        } else {
            Quote::Single
        },
    }
}

/// State and verdict when a candidate fails on byte `b`: the byte is looked at
/// afresh, so a `<` immediately starts the next candidate.
pub open spec fn scan_mismatch(b: u8) -> (ScanState, Verdict) {
    if b == 60 {
        (ScanState { mode: ScanMode::Tagname(0), pending: seq![b] }, Verdict::FlushHold)
    } else {
        (ScanState { mode: ScanMode::Idle, pending: Seq::empty() }, Verdict::FlushPass)
    }
}

/// The scanner's transition function: one byte in, the next state and the
/// verdict for that byte out.
pub open spec fn scan_step(s: ScanState, b: u8) -> (ScanState, Verdict) {
    match s.mode {
        ScanMode::Idle => if b == 60 {
            (ScanState { mode: ScanMode::Tagname(0), pending: seq![b] }, Verdict::Hold)
        } else {
            (ScanState { mode: ScanMode::Idle, pending: Seq::empty() }, Verdict::Pass)
        },
        ScanMode::Tagname(k) => if k < 4 && is_head_letter(k as int, b) {
            (
                ScanState { mode: ScanMode::Tagname((k + 1) as u8), pending: s.pending.push(b) },
                Verdict::Hold,
            )
        } else if k == 4 && b == 62 {
            (ScanState { mode: ScanMode::Resolved, pending: Seq::empty() }, Verdict::Resolve)
        } else if k == 4 && (is_ws(b) || b == 47) {
            (
                ScanState { mode: ScanMode::Body(Quote::Unquoted), pending: s.pending.push(b) },
                Verdict::Hold,
            )
        } else {
            scan_mismatch(b)
        },
        ScanMode::Body(q) => if s.pending.len() >= MAX_TAG_LEN {
            (ScanState { mode: ScanMode::Abandoned, pending: Seq::empty() }, Verdict::AbandonPass)
        } else if q is Unquoted && b == 62 {
            (ScanState { mode: ScanMode::Resolved, pending: Seq::empty() }, Verdict::Resolve)
        } else {
            (
                ScanState { mode: ScanMode::Body(next_quote(q, b)), pending: s.pending.push(b) },
                Verdict::Hold,
            )
        },
        ScanMode::Resolved => (
            ScanState { mode: ScanMode::Resolved, pending: Seq::empty() },
            Verdict::Pass,
        ),
        ScanMode::Abandoned => (
            ScanState { mode: ScanMode::Abandoned, pending: Seq::empty() },
            Verdict::Pass,
        ),
    }
}

/// The scanner's starting state.
pub open spec fn scan_init() -> ScanState {
    ScanState { mode: ScanMode::Idle, pending: Seq::empty() }
}

/// The scanner's state after consuming the whole of `doc`.
pub open spec fn scan_run(doc: Seq<u8>) -> ScanState
    decreases doc.len(),
{
    if doc.len() == 0 {
        scan_init()
    } else {
        scan_step(scan_run(doc.drop_last()), doc.last()).0
    }
}

/// A state the executable locator can be in: the byte count agrees with the
/// withheld bytes, and the withheld bytes fit the mode and the budget.
pub open spec fn mode_fits(mode: ScanMode, pending: Seq<u8>) -> bool {
    match mode {
        ScanMode::Idle | ScanMode::Resolved | ScanMode::Abandoned => pending.len() == 0,
        ScanMode::Tagname(k) => k <= 4 && pending.len() == k as int + 1,
        ScanMode::Body(_) => 6 <= pending.len(),
    }
}

/// Every state reachable from `scan_init` is well formed.
pub proof fn lemma_scan_step_wf(s: ScanState, b: u8)
    requires
        mode_fits(s.mode, s.pending),
        s.pending.len() <= MAX_TAG_LEN,
    ensures
        mode_fits(scan_step(s, b).0.mode, scan_step(s, b).0.pending),
        scan_step(s, b).0.pending.len() <= MAX_TAG_LEN,
{
}

/// The scanner's state after any document is well formed, and in particular
/// its withheld bytes never exceed the fixed budget.
pub proof fn lemma_scan_run_wf(doc: Seq<u8>)
    ensures
        mode_fits(scan_run(doc).mode, scan_run(doc).pending),
        scan_run(doc).pending.len() <= MAX_TAG_LEN,
    decreases doc.len(),
{
    if doc.len() > 0 {
        lemma_scan_run_wf(doc.drop_last());
        lemma_scan_step_wf(scan_run(doc.drop_last()), doc.last());
    }
}

/// The executable scanner.  It owns no document bytes: it only counts the
/// withheld candidate bytes, whose content is tracked in ghost state and held
/// by its caller.
pub struct Locator {
    mode: ScanMode,
    held: usize,
    pending: Ghost<Seq<u8>>,
}

impl View for Locator {
    type V = ScanState;

    closed spec fn view(&self) -> ScanState {
        ScanState { mode: self.mode, pending: self.pending@ }
    }
}

impl Locator {
    /// The locator's internal consistency: its byte count equals the length
    /// of the candidate it tracks, and that candidate fits its mode.
    pub closed spec fn wf(&self) -> bool {
        &&& self.held == self.pending@.len()
        &&& self.pending@.len() <= MAX_TAG_LEN
        &&& mode_fits(self.mode, self.pending@)
    }

    /// A locator at the start of a document.
    pub fn new() -> (r: Locator)
        ensures
            r.wf(),
            r@ == scan_init(),
    {
        Locator { mode: ScanMode::Idle, held: 0, pending: Ghost(Seq::empty()) }
    }

    /// Feed one byte; the verdict says what the byte, and possibly the
    /// withheld candidate, do to the output stream.
    pub fn push(&mut self, b: u8) -> (v: Verdict)
        requires
            old(self).wf(),
        ensures
            final(self).wf(),
            final(self)@ == scan_step(old(self)@, b).0,
            v == scan_step(old(self)@, b).1,
    {
        match self.mode {
            ScanMode::Idle => {
                if b == 60 {
                    self.mode = ScanMode::Tagname(0);
                    self.held = 1;
                    let ghost p = seq![b];
                    self.pending = Ghost(p);
                    Verdict::Hold
                } else {
                    proof {
                        assert(self.pending@ =~= Seq::<u8>::empty());
                    }
                    Verdict::Pass
                }
            },
            ScanMode::Tagname(k) => {
                if k < 4 && is_head_letter_byte(k, b) {
                    self.mode = ScanMode::Tagname(k + 1);
                    self.held = self.held + 1;
                    let ghost p = self.pending@.push(b);
                    self.pending = Ghost(p);
                    Verdict::Hold
                } else if k == 4 && b == 62 {
                    self.mode = ScanMode::Resolved;
                    self.held = 0;
                    let ghost p = Seq::<u8>::empty();
                    self.pending = Ghost(p);
                    Verdict::Resolve
                } else if k == 4 && (is_ws_byte(b) || b == 47) {
                    self.mode = ScanMode::Body(Quote::Unquoted);
                    self.held = self.held + 1;
                    let ghost p = self.pending@.push(b);
                    self.pending = Ghost(p);
                    Verdict::Hold
                } else if b == 60 {
                    self.mode = ScanMode::Tagname(0);
                    self.held = 1;
                    let ghost p = seq![b];
                    self.pending = Ghost(p);
                    Verdict::FlushHold
                } else {
                    self.mode = ScanMode::Idle;
                    self.held = 0;
                    let ghost p = Seq::<u8>::empty();
                    self.pending = Ghost(p);
                    Verdict::FlushPass
                }
            },
            ScanMode::Body(q) => {
                if self.held >= MAX_TAG_LEN {
                    self.mode = ScanMode::Abandoned;
                    self.held = 0;
                    let ghost p = Seq::<u8>::empty();
                    self.pending = Ghost(p);
                    Verdict::AbandonPass
                } else if matches!(q, Quote::Unquoted) && b == 62 {
                    self.mode = ScanMode::Resolved;
                    self.held = 0;
                    let ghost p = Seq::<u8>::empty();
                    self.pending = Ghost(p);
                    Verdict::Resolve
                } else {
                    self.mode = ScanMode::Body(next_quote_byte(q, b));
                    self.held = self.held + 1;
                    let ghost p = self.pending@.push(b);
                    self.pending = Ghost(p);
                    Verdict::Hold
                }
            },
            ScanMode::Resolved => {
                proof {
                    assert(self.pending@ =~= Seq::<u8>::empty());
                }
                Verdict::Pass
            },
            ScanMode::Abandoned => {
                proof {
                    assert(self.pending@ =~= Seq::<u8>::empty());
                }
                Verdict::Pass
            },
        }
    }
}

/// Executable form of [`is_head_letter`].
fn is_head_letter_byte(k: u8, b: u8) -> (r: bool)
    ensures
        r == is_head_letter(k as int, b),
{
    let l: u8 = if k == 0 {
        104
    } else if k == 1 {
        101
    } else if k == 2 {
        97
    } else {
        100
    };
    b == l || (b <= 223 && b + 32 == l)
}

/// Executable form of [`is_ws`].
fn is_ws_byte(b: u8) -> (r: bool)
    ensures
        r == is_ws(b),
{
    b == 32 || b == 9 || b == 10 || b == 12 || b == 13
}

/// Executable form of [`next_quote`].
fn next_quote_byte(q: Quote, b: u8) -> (r: Quote)
    ensures
        r == next_quote(q, b),
{
    match q {
        Quote::Unquoted => if b == 34 {
            Quote::Double
        } else if b == 39 {
            Quote::Single
        } else {
            Quote::Unquoted
        },
        Quote::Double => if b == 34 {
            Quote::Unquoted
        } else {
            Quote::Double
        },
        Quote::Single => if b == 39 {
            Quote::Unquoted
        } else {
            Quote::Single
        },
    }
}

} // verus!
