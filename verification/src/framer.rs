//! Splitting a byte stream into complete JSON values.
//!
//! Progress endpoints emit one JSON object per event, concatenated with
//! nothing or whitespace between values and with no outer array, and the
//! network hands them over in arbitrary pieces. The framer buffers input
//! and emits each value's exact byte range once it is complete. It is a
//! byte-at-a-time state machine, so what it emits depends only on the
//! concatenation of its input, never on how that input was cut into
//! chunks.
//!
//! The framer finds value boundaries; it does not validate. A frame that
//! balances its brackets but is not well-formed JSON is rejected later,
//! by the per-frame decoder.

use vstd::prelude::*;

use crate::errors::Error;

verus! {

/// Where the scanner stands inside the byte stream.
///
/// `Nested` tracks one combined depth for `{}` and `[]`; bracket kinds
/// are not matched here. The depth saturates at `usize::MAX`: input
/// nested that deeply cannot be represented, and the per-frame decoder
/// rejects it.
#[derive(Clone, Copy, Debug, PartialEq, Eq, Structural)]
pub enum ScanMode {
    /// Between values; only whitespace seen since the last one.
    Between,
    /// Inside a bare token such as a number, `true`, `false` or `null`.
    /// It ends at whitespace, at an opening bracket or quote, or at the
    /// end of the stream.
    Bare,
    /// Inside a top-level string value; `esc` after a backslash.
    Text { esc: bool },
    /// Inside an object or array; `in_str` inside one of its strings.
    Nested { depth: usize, in_str: bool, esc: bool },
    /// A value could not start here; the stream is dead.
    Failed,
}

/// The whole scanner state: the mode and the bytes of the value begun
/// but not yet complete.
pub ghost struct ScanState {
    pub mode: ScanMode,
    pub cur: Seq<u8>,
}

/// JSON insignificant whitespace, plus carriage return.
pub open spec fn is_ws(b: u8) -> bool {
    b == 0x20 || b == 0x09 || b == 0x0a || b == 0x0d
}

/// A byte that opens a nested value.
pub open spec fn is_open(b: u8) -> bool {
    b == 0x7b || b == 0x5b
}

/// A byte that closes a nested value.
pub open spec fn is_close(b: u8) -> bool {
    b == 0x7d || b == 0x5d
}

/// The state in which nothing has been read.
pub open spec fn scan_init() -> ScanState {
    ScanState { mode: ScanMode::Between, cur: Seq::empty() }
}

/// One byte of progress: the next state, and the frame completed by this
/// byte, if any.
pub open spec fn scan_step(st: ScanState, b: u8) -> (ScanState, Option<Seq<u8>>) {
    match st.mode {
        ScanMode::Between => {
            if is_ws(b) {
                (st, None)
            } else if is_open(b) {
                (ScanState { mode: ScanMode::Nested { depth: 1, in_str: false, esc: false }, cur: Seq::empty().push(b) }, None)
            } else if b == 0x22 {
                (ScanState { mode: ScanMode::Text { esc: false }, cur: Seq::empty().push(b) }, None)
            } else if is_close(b) {
                (ScanState { mode: ScanMode::Failed, cur: Seq::empty() }, None)
            } else {
                (ScanState { mode: ScanMode::Bare, cur: Seq::empty().push(b) }, None)
            }
        },
        ScanMode::Bare => {
            if is_ws(b) {
                (ScanState { mode: ScanMode::Between, cur: Seq::empty() }, Some(st.cur))
            } else if is_open(b) {
                (ScanState { mode: ScanMode::Nested { depth: 1, in_str: false, esc: false }, cur: Seq::empty().push(b) }, Some(st.cur))
            } else if b == 0x22 {
                (ScanState { mode: ScanMode::Text { esc: false }, cur: Seq::empty().push(b) }, Some(st.cur))
            } else if is_close(b) {
                (ScanState { mode: ScanMode::Failed, cur: Seq::empty() }, None)
            } else {
                (ScanState { mode: ScanMode::Bare, cur: st.cur.push(b) }, None)
            }
        },
        ScanMode::Text { esc } => {
            if esc {
                (ScanState { mode: ScanMode::Text { esc: false }, cur: st.cur.push(b) }, None)
            } else if b == 0x5c {
                (ScanState { mode: ScanMode::Text { esc: true }, cur: st.cur.push(b) }, None)
            } else if b == 0x22 {
                (ScanState { mode: ScanMode::Between, cur: Seq::empty() }, Some(st.cur.push(b)))
            } else {
                (ScanState { mode: ScanMode::Text { esc: false }, cur: st.cur.push(b) }, None)
            }
        },
        ScanMode::Nested { depth, in_str, esc } => {
            if in_str {
                if esc {
                    (ScanState { mode: ScanMode::Nested { depth, in_str: true, esc: false }, cur: st.cur.push(b) }, None)
                } else if b == 0x5c {
                    (ScanState { mode: ScanMode::Nested { depth, in_str: true, esc: true }, cur: st.cur.push(b) }, None)
                } else if b == 0x22 {
                    (ScanState { mode: ScanMode::Nested { depth, in_str: false, esc: false }, cur: st.cur.push(b) }, None)
                } else {
                    (ScanState { mode: ScanMode::Nested { depth, in_str: true, esc: false }, cur: st.cur.push(b) }, None)
                }
            } else {
                if b == 0x22 {
                    (ScanState { mode: ScanMode::Nested { depth, in_str: true, esc: false }, cur: st.cur.push(b) }, None)
                } else if is_open(b) {
                    let d = if depth < usize::MAX { (depth + 1) as usize } else { depth };
                    (ScanState { mode: ScanMode::Nested { depth: d, in_str: false, esc: false }, cur: st.cur.push(b) }, None)
                } else if is_close(b) {
                    if depth == 1 {
                        (ScanState { mode: ScanMode::Between, cur: Seq::empty() }, Some(st.cur.push(b)))
                    } else {
                        (ScanState { mode: ScanMode::Nested { depth: (depth - 1) as usize, in_str: false, esc: false }, cur: st.cur.push(b) }, None)
                    }
                } else {
                    (ScanState { mode: ScanMode::Nested { depth, in_str: false, esc: false }, cur: st.cur.push(b) }, None)
                }
            }
        },
        ScanMode::Failed => (ScanState { mode: ScanMode::Failed, cur: Seq::empty() }, None),
    }
}

/// The scanner run over a whole byte sequence: the final state and every
/// frame emitted, in order.
pub open spec fn scan_run(st: ScanState, s: Seq<u8>) -> (ScanState, Seq<Seq<u8>>)
    decreases s.len(),
{
    if s.len() == 0 {
        (st, Seq::empty())
    } else {
        let (st1, em) = scan_step(st, s[0]);
        let (stf, frames) = scan_run(st1, s.skip(1));
        match em {
            Some(f) => (stf, seq![f] + frames),
            None => (stf, frames),
        }
    }
}

/// Running over a concatenation is running over each part in turn.
pub proof fn lemma_scan_run_concat(st: ScanState, a: Seq<u8>, b: Seq<u8>)
    ensures
        scan_run(st, a + b) == (
            scan_run(scan_run(st, a).0, b).0,
            scan_run(st, a).1 + scan_run(scan_run(st, a).0, b).1,
        ),
    decreases a.len(),
{
    if a.len() == 0 {
        assert(a + b =~= b);
        assert(scan_run(st, a).1 + scan_run(scan_run(st, a).0, b).1 =~= scan_run(st, b).1);
    } else {
        let (st1, em) = scan_step(st, a[0]);
        assert((a + b)[0] == a[0]);
        assert((a + b).skip(1) =~= a.skip(1) + b);
        lemma_scan_run_concat(st1, a.skip(1), b);
        match em {
            Some(f) => {
                assert(seq![f] + (scan_run(st1, a.skip(1)).1 + scan_run(
                    scan_run(st1, a.skip(1)).0,
                    b,
                ).1) =~= (seq![f] + scan_run(st1, a.skip(1)).1) + scan_run(
                    scan_run(st1, a.skip(1)).0,
                    b,
                ).1);
            },
            None => {},
        }
    }
}

/// The scanner fed one chunk at a time.
pub open spec fn scan_run_chunks(st: ScanState, chunks: Seq<Seq<u8>>) -> (ScanState, Seq<Seq<u8>>)
    decreases chunks.len(),
{
    if chunks.len() == 0 {
        (st, Seq::empty())
    } else {
        let (st1, f1) = scan_run(st, chunks[0]);
        let (stf, f2) = scan_run_chunks(st1, chunks.skip(1));
        (stf, f1 + f2)
    }
}

/// Chunk boundaries are invisible: feeding chunks one at a time gives
/// exactly the run over their concatenation.
pub proof fn lemma_scan_chunks_flatten(st: ScanState, chunks: Seq<Seq<u8>>)
    ensures
        scan_run_chunks(st, chunks) == scan_run(st, chunks.flatten()),
    decreases chunks.len(),
{
    if chunks.len() == 0 {
        assert(chunks.flatten() =~= Seq::<u8>::empty());
        assert(scan_run_chunks(st, chunks).1 =~= scan_run(st, chunks.flatten()).1);
    } else {
        let (st1, f1) = scan_run(st, chunks[0]);
        lemma_scan_chunks_flatten(st1, chunks.skip(1));
        assert(chunks.flatten() == chunks[0] + chunks.skip(1).flatten()) by {
            assert(chunks =~= seq![chunks[0]] + chunks.skip(1));
            vstd::seq_lib::lemma_flatten_concat(seq![chunks[0]], chunks.skip(1));
            assert(seq![chunks[0]].flatten() =~= chunks[0] + Seq::<u8>::empty());
            assert(chunks[0] + Seq::<u8>::empty() =~= chunks[0]);
        }
        lemma_scan_run_concat(st, chunks[0], chunks.skip(1).flatten());
    }
}

/// However one and the same byte stream is cut into chunks, the framer
/// emits one and the same sequence of frames.
pub proof fn lemma_framing_chunking_invariant(chunks1: Seq<Seq<u8>>, chunks2: Seq<Seq<u8>>)
    requires
        chunks1.flatten() == chunks2.flatten(),
    ensures
        scan_run_chunks(scan_init(), chunks1) == scan_run_chunks(scan_init(), chunks2),
{
    lemma_scan_chunks_flatten(scan_init(), chunks1);
    lemma_scan_chunks_flatten(scan_init(), chunks2);
}

/// The byte views of a vector of frames.
pub open spec fn frames_seq(v: Vec<Vec<u8>>) -> Seq<Seq<u8>> {
    v@.map_values(|g: Vec<u8>| g@)
}

/// The incremental framer. Feed it chunks as they arrive; it hands back
/// each complete JSON value's bytes exactly once, in stream order.
pub struct JsonFramer {
    mode: ScanMode,
    cur: Vec<u8>,
}

impl View for JsonFramer {
    type V = ScanState;

    closed spec fn view(&self) -> ScanState {
        ScanState { mode: self.mode, cur: self.cur@ }
    }
}

impl JsonFramer {
    /// The depth counter never exceeds the bytes buffered for the
    /// current value, so it cannot overflow.
    pub closed spec fn wf(&self) -> bool {
        match self.mode {
            ScanMode::Nested { depth, .. } => 1 <= depth <= self.cur@.len(),
            ScanMode::Between => self.cur@ == Seq::<u8>::empty(),
            ScanMode::Failed => self.cur@ == Seq::<u8>::empty(),
            _ => true,
        }
    }

    /// A framer that has seen nothing.
    pub fn new() -> (r: JsonFramer)
        ensures
            r@ == scan_init(),
            r.wf(),
    {
        JsonFramer { mode: ScanMode::Between, cur: Vec::new() }
    }

    /// Process one byte; a completed frame comes back through `out`.
    fn step_byte(&mut self, b: u8, out: &mut Vec<Vec<u8>>)
        requires
            old(self).wf(),
        ensures
            final(self).wf(),
            final(self)@ == scan_step(old(self)@, b).0,
            match scan_step(old(self)@, b).1 {
                Some(f) => frames_seq(*final(out)) == frames_seq(*old(out)).push(f),
                None => final(out)@ == old(out)@,
            },
    {
        match self.mode {
            ScanMode::Between => {
                if b == 0x20 || b == 0x09 || b == 0x0a || b == 0x0d {
                } else if b == 0x7b || b == 0x5b {
                    self.mode = ScanMode::Nested { depth: 1, in_str: false, esc: false };
                    self.cur.push(b);
                } else if b == 0x22 {
                    self.mode = ScanMode::Text { esc: false };
                    self.cur.push(b);
                } else if b == 0x7d || b == 0x5d {
                    self.mode = ScanMode::Failed;
                    self.cur.clear();
                } else {
                    self.mode = ScanMode::Bare;
                    self.cur.push(b);
                }
            },
            ScanMode::Bare => {
                if b == 0x20 || b == 0x09 || b == 0x0a || b == 0x0d {
                    let mut done: Vec<u8> = Vec::new();
                    core::mem::swap(&mut done, &mut self.cur);
                    self.mode = ScanMode::Between;
                    out.push(done);
                } else if b == 0x7b || b == 0x5b {
                    let mut done: Vec<u8> = Vec::new();
                    core::mem::swap(&mut done, &mut self.cur);
                    self.mode = ScanMode::Nested { depth: 1, in_str: false, esc: false };
                    self.cur.push(b);
                    out.push(done);
                } else if b == 0x22 {
                    let mut done: Vec<u8> = Vec::new();
                    core::mem::swap(&mut done, &mut self.cur);
                    self.mode = ScanMode::Text { esc: false };
                    self.cur.push(b);
                    out.push(done);
                } else if b == 0x7d || b == 0x5d {
                    self.mode = ScanMode::Failed;
                    self.cur.clear();
                } else {
                    self.cur.push(b);
                }
            },
            ScanMode::Text { esc } => {
                if esc {
                    self.mode = ScanMode::Text { esc: false };
                    self.cur.push(b);
                } else if b == 0x5c {
                    self.mode = ScanMode::Text { esc: true };
                    self.cur.push(b);
                } else if b == 0x22 {
                    self.cur.push(b);
                    let mut done: Vec<u8> = Vec::new();
                    core::mem::swap(&mut done, &mut self.cur);
                    self.mode = ScanMode::Between;
                    out.push(done);
                } else {
                    self.mode = ScanMode::Text { esc: false };
                    self.cur.push(b);
                }
            },
            ScanMode::Nested { depth, in_str, esc } => {
                if in_str {
                    if esc {
                        self.mode = ScanMode::Nested { depth, in_str: true, esc: false };
                        self.cur.push(b);
                    } else if b == 0x5c {
                        self.mode = ScanMode::Nested { depth, in_str: true, esc: true };
                        self.cur.push(b);
                    } else if b == 0x22 {
                        self.mode = ScanMode::Nested { depth, in_str: false, esc: false };
                        self.cur.push(b);
                    } else {
                        self.mode = ScanMode::Nested { depth, in_str: true, esc: false };
                        self.cur.push(b);
                    }
                } else {
                    if b == 0x22 {
                        self.mode = ScanMode::Nested { depth, in_str: true, esc: false };
                        self.cur.push(b);
                    } else if b == 0x7b || b == 0x5b {
                        self.cur.push(b);
                        let d = if depth < usize::MAX {
                            depth + 1
                        } else {
                            depth
                        };
                        self.mode = ScanMode::Nested { depth: d, in_str: false, esc: false };
                    } else if b == 0x7d || b == 0x5d {
                        if depth == 1 {
                            self.cur.push(b);
                            let mut done: Vec<u8> = Vec::new();
                            core::mem::swap(&mut done, &mut self.cur);
                            self.mode = ScanMode::Between;
                            out.push(done);
                        } else {
                            self.mode = ScanMode::Nested { depth: depth - 1, in_str: false, esc: false };
                            self.cur.push(b);
                        }
                    } else {
                        self.mode = ScanMode::Nested { depth, in_str: false, esc: false };
                        self.cur.push(b);
                    }
                }
            },
            ScanMode::Failed => {},
        }
    }

    /// Feed the next chunk of the stream.
    ///
    /// The frames are every value this chunk completed, in order —
    /// also when the stream dies partway through the chunk: values
    /// before the failure are delivered, only the remainder is lost.
    /// The status reports whether a value can still start here; once
    /// it is [`Error::Decode`] the stream is dead, as [`scan_run`]
    /// describes.
    pub fn feed(&mut self, chunk: &Vec<u8>) -> (r: (Vec<Vec<u8>>, Result<(), Error>))
        requires
            old(self).wf(),
        ensures
            final(self).wf(),
            final(self)@ == scan_run(old(self)@, chunk@).0,
            frames_seq(r.0) == scan_run(old(self)@, chunk@).1,
            match r.1 {
                Ok(_) => !(final(self)@.mode is Failed),
                Err(e) => {
                    &&& final(self)@.mode is Failed
                    &&& e == Error::Decode
                },
            },
    {
        let mut out: Vec<Vec<u8>> = Vec::new();
        let mut i: usize = 0;
        let n = chunk.len();
        proof {
            assert(chunk@.skip(0) =~= chunk@);
            assert(frames_seq(out) =~= Seq::<Seq<u8>>::empty());
            assert(frames_seq(out) + scan_run(self@, chunk@).1 =~= scan_run(self@, chunk@).1);
        }
        while i < n
            invariant
                n == chunk.len(),
                i <= n,
                self.wf(),
                scan_run(old(self)@, chunk@) == (
                    scan_run(self@, chunk@.skip(i as int)).0,
                    frames_seq(out) + scan_run(self@, chunk@.skip(i as int)).1,
                ),
            decreases n - i,
        {
            let ghost pre = self@;
            let ghost pre_out = out;
            let b = chunk[i];
            self.step_byte(b, &mut out);
            proof {
                let rest = chunk@.skip(i as int);
                assert(rest[0] == b);
                assert(rest.skip(1) =~= chunk@.skip(i + 1));
                let (st1, em) = scan_step(pre, b);
                assert(st1 == self@);
                match em {
                    Some(f) => {
                        assert(frames_seq(pre_out) + (seq![f] + scan_run(
                            self@,
                            chunk@.skip(i + 1),
                        ).1) =~= frames_seq(out) + scan_run(self@, chunk@.skip(i + 1)).1);
                    },
                    None => {
                        assert(frames_seq(out) =~= frames_seq(pre_out));
                    },
                }
            }
            i += 1;
        }
        proof {
            assert(chunk@.skip(n as int) =~= Seq::<u8>::empty());
            assert(frames_seq(out) + Seq::<Seq<u8>>::empty() =~= frames_seq(out));
        }
        if matches!(self.mode, ScanMode::Failed) {
            (out, Err(Error::Decode))
        } else {
            (out, Ok(()))
        }
    }

    /// Close the stream.
    ///
    /// At a frame boundary there is nothing to add; a bare token that
    /// only the end of the stream could delimit comes back as one last
    /// frame. Ending inside a string, object or array — or after the
    /// stream died — is a decode error.
    pub fn finish(self) -> (r: Result<Option<Vec<u8>>, Error>)
        requires
            self.wf(),
        ensures
            match r {
                Ok(opt) => match opt {
                    Some(f) => self@.mode is Bare && f@ == self@.cur,
                    None => self@.mode is Between,
                },
                Err(e) => {
                    &&& e == Error::Decode
                    &&& (self@.mode is Text || self@.mode is Nested || self@.mode is Failed)
                },
            },
    {
        match self.mode {
            ScanMode::Between => Ok(None),
            ScanMode::Bare => Ok(Some(self.cur)),
            _ => Err(Error::Decode),
        }
    }
}

} // verus!
