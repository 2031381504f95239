//! Chunked byte stream to line records, aware of CR/LF conventions.
//!
//! A `LineBuf` accumulates bytes until a line feed terminates the line, a
//! carriage-return overwrite discards it, or the buffer reaches its size cap
//! and the accumulated bytes are flushed as an unterminated record.
use vstd::prelude::*;

verus! {

pub const LF: u8 = 10;

pub const CR: u8 = 13;

/// The abstract state of a line buffer: the accumulated line and whether a
/// carriage return is pending.
#[verifier::ext_equal]
pub struct LbState {
    pub buf: Seq<u8>,
    pub cr: bool,
}

pub open spec fn lb_empty() -> LbState {
    LbState { buf: Seq::empty(), cr: false }
}

/// One byte of input: the successor state and the records emitted for it.
pub open spec fn lb_step(cap: nat, st: LbState, b: u8) -> (LbState, Seq<Seq<u8>>) {
    if b == CR {
        (LbState { buf: st.buf, cr: true }, seq![])
    } else if b == LF {
        (lb_empty(), seq![st.buf.push(LF)])
    } else {
        let buf0: Seq<u8> = if st.cr {
            Seq::empty()
        } else {
            st.buf
        };
        if buf0.len() == cap {
            (LbState { buf: seq![b], cr: false }, seq![buf0])
        } else {
            (LbState { buf: buf0.push(b), cr: false }, seq![])
        }
    }
}

/// A whole chunk of input: the successor state and all records emitted.
pub open spec fn lb_run(cap: nat, st: LbState, bytes: Seq<u8>) -> (LbState, Seq<Seq<u8>>)
    decreases bytes.len(),
{
    if bytes.len() == 0 {
        (st, seq![])
    } else {
        let (st1, out1) = lb_step(cap, st, bytes.first());
        let (st2, out2) = lb_run(cap, st1, bytes.drop_first());
        (st2, out1 + out2)
    }
}

/// The records emitted when the stream closes: nothing after a pending
/// carriage return, else the residual line if it is not empty.
pub open spec fn lb_close(st: LbState) -> Seq<Seq<u8>> {
    if st.cr {
        seq![]
    } else if st.buf.len() > 0 {
        seq![st.buf]
    } else {
        seq![]
    }
}

/// Concatenation of a sequence of records.
pub open spec fn concat_records(rs: Seq<Seq<u8>>) -> Seq<u8>
    decreases rs.len(),
{
    if rs.len() == 0 {
        Seq::empty()
    } else {
        rs.first() + concat_records(rs.drop_first())
    }
}

/// The CR/LF normalisation of a byte stream, with no buffering cap: each
/// CR+LF pair collapses to LF, and a line overwritten by a carriage return
/// followed by more data is discarded.
pub open spec fn collapse_from(bytes: Seq<u8>, line: Seq<u8>, cr: bool) -> Seq<u8>
    decreases bytes.len(),
{
    if bytes.len() == 0 {
        if cr {
            Seq::empty()
        } else {
            line
        }
    } else if bytes.first() == CR {
        collapse_from(bytes.drop_first(), line, true)
    } else if bytes.first() == LF {
        line.push(LF) + collapse_from(bytes.drop_first(), Seq::empty(), false)
    } else {
        let line0: Seq<u8> = if cr {
            Seq::empty()
        } else {
            line
        };
        collapse_from(bytes.drop_first(), line0.push(bytes.first()), false)
    }
}

pub open spec fn collapse(bytes: Seq<u8>) -> Seq<u8> {
    collapse_from(bytes, Seq::empty(), false)
}

/// Converts byte chunks into UTF-8-lossy line records with a maximum line
/// length.
pub struct LineBuf {
    buf: Vec<u8>,
    buffer_size: usize,
    pending_cr: bool,
}

impl View for LineBuf {
    type V = LbState;

    closed spec fn view(&self) -> LbState {
        LbState { buf: self.buf@, cr: self.pending_cr }
    }
}

/// Relies on `String::from_utf8_lossy`: the result is a function of the
/// bytes alone (valid UTF-8 is kept, invalid sequences become replacement
/// characters).
#[verifier::external_body]
fn lossy_string(bytes: &[u8]) -> (r: String)
    ensures
        r@ == lossy_of(bytes@),
{
    String::from_utf8_lossy(bytes).into_owned()
}

/// The character sequence that UTF-8-lossy decoding yields for given bytes.
pub uninterp spec fn lossy_of(bytes: Seq<u8>) -> Seq<char>;

impl LineBuf {
    pub closed spec fn cap(&self) -> nat {
        self.buffer_size as nat
    }

    pub open spec fn wf(&self) -> bool {
        self.cap() >= 1 && self@.buf.len() <= self.cap()
    }

    pub fn new(buffer_size: usize) -> (r: Self)
        requires
            buffer_size >= 1,
        ensures
            r@ == lb_empty(),
            r.cap() == buffer_size,
            r.wf(),
    {
        let r = LineBuf { buf: Vec::new(), buffer_size, pending_cr: false };
        proof {
            assert(r@.buf =~= lb_empty().buf);
        }
        r
    }

    /// Feed one chunk of bytes; the returned strings are the lossy decodings
    /// of the records that `lb_run` emits for the chunk.
    pub fn accept(&mut self, bytes: &[u8]) -> (lines: Vec<String>)
        requires
            old(self).wf(),
        ensures
            final(self).wf(),
            final(self).cap() == old(self).cap(),
            final(self)@ == lb_run(old(self).cap(), old(self)@, bytes@).0,
            lines@.len() == lb_run(old(self).cap(), old(self)@, bytes@).1.len(),
            forall|k: int|
                0 <= k < lines@.len() ==> #[trigger] lines@[k]@ == lossy_of(
                    lb_run(old(self).cap(), old(self)@, bytes@).1[k],
                ),
    {
        let ghost orig: LbState = old(self)@;
        let ghost cap: nat = old(self).cap();
        let mut lines: Vec<String> = Vec::new();
        let ghost mut recs: Seq<Seq<u8>> = seq![];
        let n = bytes.len();
        let mut i: usize = 0;
        while i < n
            invariant
                i <= n,
                n == bytes@.len(),
                self.wf(),
                self.cap() == cap,
                lb_run(cap, orig, bytes@.take(i as int)).0 == self@,
                lb_run(cap, orig, bytes@.take(i as int)).1 == recs,
                lines@.len() == recs.len(),
                forall|k: int|
                    0 <= k < lines@.len() ==> #[trigger] lines@[k]@ == lossy_of(recs[k]),
            decreases n - i,
        {
            let b = bytes[i];
            let ghost pre: LbState = self@;
            let ghost pre_recs: Seq<Seq<u8>> = recs;
            if b == CR {
                self.pending_cr = true;
            } else if b == LF {
                self.pending_cr = false;
                self.buf.push(LF);
                let s = lossy_string(self.buf.as_slice());
                lines.push(s);
                self.buf.clear();
                proof {
                    recs = pre_recs + lb_step(cap, pre, b).1;
                    assert(self@.buf =~= lb_empty().buf);
                }
            } else {
                if self.pending_cr {
                    self.buf.clear();
                    self.pending_cr = false;
                }
                if self.buf.len() == self.buffer_size {
                    let s = lossy_string(self.buf.as_slice());
                    lines.push(s);
                    self.buf.clear();
                    proof {
                        recs = pre_recs + lb_step(cap, pre, b).1;
                    }
                }
                self.buf.push(b);
            }
            proof {
                if b == CR {
                    assert(self@ =~= lb_step(cap, pre, b).0);
                    assert(pre_recs + lb_step(cap, pre, b).1 =~= pre_recs);
                } else if b == LF {
                    recs = pre_recs + lb_step(cap, pre, b).1;
                    assert(self@ =~= lb_step(cap, pre, b).0);
                } else {
                    let buf0: Seq<u8> = if pre.cr {
                        Seq::empty()
                    } else {
                        pre.buf
                    };
                    if buf0.len() == cap {
                        recs = pre_recs + lb_step(cap, pre, b).1;
                        assert(self@.buf =~= seq![b]);
                        assert(self@ =~= lb_step(cap, pre, b).0);
                    } else {
                        assert(self@.buf =~= buf0.push(b));
                        assert(self@ =~= lb_step(cap, pre, b).0);
                        assert(pre_recs + lb_step(cap, pre, b).1 =~= pre_recs);
                    }
                }
                lemma_lb_run_snoc(cap, orig, bytes@.take(i as int), b);
                assert(bytes@.take(i as int).push(b) =~= bytes@.take(i + 1 as int));
            }
            i = i + 1;
        }
        proof {
            assert(bytes@.take(n as int) =~= bytes@);
        }
        lines
    }

    /// Close the stream, flushing the residual line as `lb_close` says.
    pub fn close(&self) -> (lines: Vec<String>)
        ensures
            lines@.len() == lb_close(self@).len(),
            forall|k: int|
                0 <= k < lines@.len() ==> #[trigger] lines@[k]@ == lossy_of(lb_close(self@)[k]),
    {
        let mut lines: Vec<String> = Vec::new();
        if self.pending_cr {
            return lines;
        }
        if self.buf.len() > 0 {
            let s = lossy_string(self.buf.as_slice());
            lines.push(s);
        }
        lines
    }
}

proof fn lemma_lb_run_snoc(cap: nat, st: LbState, bytes: Seq<u8>, b: u8)
    ensures
        lb_run(cap, st, bytes.push(b)).0 == lb_step(cap, lb_run(cap, st, bytes).0, b).0,
        lb_run(cap, st, bytes.push(b)).1 == lb_run(cap, st, bytes).1 + lb_step(
            cap,
            lb_run(cap, st, bytes).0,
            b,
        ).1,
    decreases bytes.len(),
{
    let st1 = lb_run(cap, st, bytes).0;
    let out1 = lb_run(cap, st, bytes).1;
    let st2 = lb_step(cap, st1, b).0;
    let out2 = lb_step(cap, st1, b).1;
    if bytes.len() == 0 {
        let pb = bytes.push(b);
        assert(pb.first() == b);
        assert(pb.drop_first() =~= Seq::<u8>::empty());
        assert(st1 == st && out1 =~= Seq::<Seq<u8>>::empty());
        assert(lb_run(cap, st, pb).0 == lb_run(cap, lb_step(cap, st, pb.first()).0, pb.drop_first()).0);
        assert(lb_run(cap, st, pb).1 == lb_step(cap, st, pb.first()).1 + lb_run(
            cap,
            lb_step(cap, st, pb.first()).0,
            pb.drop_first(),
        ).1);
        assert(lb_run(cap, lb_step(cap, st, b).0, pb.drop_first()).1 =~= Seq::<Seq<u8>>::empty());
        assert(out2 + Seq::<Seq<u8>>::empty() =~= out2);
        assert(out1 + out2 =~= out2);
    } else {
        let sth = lb_step(cap, st, bytes.first()).0;
        let outh = lb_step(cap, st, bytes.first()).1;
        assert(bytes.push(b).first() == bytes.first());
        assert(bytes.push(b).drop_first() =~= bytes.drop_first().push(b));
        lemma_lb_run_snoc(cap, sth, bytes.drop_first(), b);
        let outm = lb_run(cap, sth, bytes.drop_first()).1;
        assert(outh + (outm + out2) =~= (outh + outm) + out2);
    }
}

/// Feeding one stream in two chunks emits the same records, and reaches the
/// same state, as feeding it whole: record emission is independent of
/// chunking.
pub proof fn lemma_accept_chunking(cap: nat, st: LbState, a: Seq<u8>, b: Seq<u8>)
    ensures
        lb_run(cap, st, a + b).0 == lb_run(cap, lb_run(cap, st, a).0, b).0,
        lb_run(cap, st, a + b).1 == lb_run(cap, st, a).1 + lb_run(cap, lb_run(cap, st, a).0, b).1,
    decreases a.len(),
{
    let st1 = lb_run(cap, st, a).0;
    let out1 = lb_run(cap, st, a).1;
    let st2 = lb_run(cap, st1, b).0;
    let out2 = lb_run(cap, st1, b).1;
    if a.len() == 0 {
        assert(a + b =~= b);
        assert(out1 + out2 =~= out2);
    } else {
        let sth = lb_step(cap, st, a.first()).0;
        let outh = lb_step(cap, st, a.first()).1;
        assert((a + b).first() == a.first());
        assert((a + b).drop_first() =~= a.drop_first() + b);
        lemma_accept_chunking(cap, sth, a.drop_first(), b);
        let outm = lb_run(cap, sth, a.drop_first()).1;
        assert(outh + (outm + out2) =~= (outh + outm) + out2);
    }
}

/// A whole stream fed as a sequence of chunks: the final state and all
/// records emitted across the chunks.
pub open spec fn lb_run_chunks(cap: nat, st: LbState, chunks: Seq<Seq<u8>>) -> (LbState, Seq<
    Seq<u8>,
>)
    decreases chunks.len(),
{
    if chunks.len() == 0 {
        (st, seq![])
    } else {
        let (st1, out1) = lb_run(cap, st, chunks.first());
        let (st2, out2) = lb_run_chunks(cap, st1, chunks.drop_first());
        (st2, out1 + out2)
    }
}

/// Feeding a stream in any chunking emits exactly the records, and reaches
/// exactly the state, of feeding it whole.
pub proof fn lemma_chunking_any(cap: nat, st: LbState, chunks: Seq<Seq<u8>>)
    ensures
        lb_run_chunks(cap, st, chunks).0 == lb_run(cap, st, concat_records(chunks)).0,
        lb_run_chunks(cap, st, chunks).1 == lb_run(cap, st, concat_records(chunks)).1,
    decreases chunks.len(),
{
    if chunks.len() == 0 {
        assert(concat_records(chunks) =~= Seq::<u8>::empty());
        assert(lb_run(cap, st, Seq::<u8>::empty()).1 =~= Seq::<Seq<u8>>::empty());
    } else {
        let st1 = lb_run(cap, st, chunks.first()).0;
        let out1 = lb_run(cap, st, chunks.first()).1;
        lemma_chunking_any(cap, st1, chunks.drop_first());
        lemma_accept_chunking(cap, st, chunks.first(), concat_records(chunks.drop_first()));
        assert(concat_records(chunks) == chunks.first() + concat_records(chunks.drop_first()));
    }
}

/// Two buffers fed the same bytes under different chunkings emit the same
/// records and agree on what `close` will flush: the output is a function
/// of the cap and the byte stream alone.
pub proof fn lemma_chunking_independence(cap: nat, a: Seq<Seq<u8>>, b: Seq<Seq<u8>>)
    requires
        concat_records(a) == concat_records(b),
    ensures
        lb_run_chunks(cap, lb_empty(), a).0 == lb_run_chunks(cap, lb_empty(), b).0,
        lb_run_chunks(cap, lb_empty(), a).1 == lb_run_chunks(cap, lb_empty(), b).1,
        lb_close(lb_run_chunks(cap, lb_empty(), a).0) == lb_close(lb_run_chunks(cap, lb_empty(), b).0),
{
    lemma_chunking_any(cap, lb_empty(), a);
    lemma_chunking_any(cap, lb_empty(), b);
}

/// For a stream no longer than the cap, fed in any sequence of chunks,
/// concatenating every record the chunks emitted with the records flushed
/// at close reproduces the CR/LF normalisation of the whole stream.
pub proof fn lemma_chunked_reconstruction(cap: nat, chunks: Seq<Seq<u8>>)
    requires
        concat_records(chunks).len() <= cap,
    ensures
        ({
            let (st, out) = lb_run_chunks(cap, lb_empty(), chunks);
            concat_records(out) + concat_records(lb_close(st)) == collapse(concat_records(chunks))
        }),
{
    lemma_chunking_any(cap, lb_empty(), chunks);
    lemma_accept_close_collapse(cap, concat_records(chunks));
}

proof fn lemma_concat_singleton(x: Seq<u8>)
    ensures
        concat_records(seq![x]) == x,
{
    assert(seq![x].drop_first() =~= Seq::<Seq<u8>>::empty());
    assert(concat_records(seq![x]) == seq![x].first() + concat_records(seq![x].drop_first()));
    assert(concat_records(Seq::<Seq<u8>>::empty()) == Seq::<u8>::empty());
    assert(seq![x].first() == x);
    assert(x + Seq::<u8>::empty() =~= x);
}

proof fn lemma_concat_append(a: Seq<Seq<u8>>, b: Seq<Seq<u8>>)
    ensures
        concat_records(a + b) == concat_records(a) + concat_records(b),
    decreases a.len(),
{
    if a.len() == 0 {
        assert(a + b =~= b);
        assert(concat_records(a) + concat_records(b) =~= concat_records(b));
    } else {
        assert((a + b).first() == a.first());
        assert((a + b).drop_first() =~= a.drop_first() + b);
        lemma_concat_append(a.drop_first(), b);
        assert(a.first() + (concat_records(a.drop_first()) + concat_records(b)) =~= (a.first()
            + concat_records(a.drop_first())) + concat_records(b));
    }
}

proof fn lemma_collapse_run(cap: nat, st: LbState, bytes: Seq<u8>)
    requires
        st.buf.len() + bytes.len() <= cap,
    ensures
        ({
            let (st1, out1) = lb_run(cap, st, bytes);
            concat_records(out1) + concat_records(lb_close(st1)) == collapse_from(
                bytes,
                st.buf,
                st.cr,
            )
        }),
    decreases bytes.len(),
{
    let st1 = lb_run(cap, st, bytes).0;
    let out1 = lb_run(cap, st, bytes).1;
    if bytes.len() == 0 {
        assert(st1 == st);
        assert(concat_records(out1) =~= Seq::<u8>::empty());
        if st.cr {
            assert(concat_records(out1) + concat_records(lb_close(st1)) =~= Seq::<u8>::empty());
        } else if st.buf.len() > 0 {
            lemma_concat_singleton(st.buf);
            assert(concat_records(out1) + concat_records(lb_close(st1)) =~= st.buf);
        } else {
            assert(concat_records(out1) + concat_records(lb_close(st1)) =~= st.buf);
        }
    } else {
        let b = bytes.first();
        let sth = lb_step(cap, st, b).0;
        let outh = lb_step(cap, st, b).1;
        let stm = lb_run(cap, sth, bytes.drop_first()).0;
        let outm = lb_run(cap, sth, bytes.drop_first()).1;
        lemma_collapse_run(cap, sth, bytes.drop_first());
        lemma_concat_append(outh, outm);
        assert(out1 == outh + outm);
        assert(stm == st1);
        if b == CR {
            assert(concat_records(outh) =~= Seq::<u8>::empty());
            assert(concat_records(outh) + (concat_records(outm) + concat_records(lb_close(stm)))
                =~= concat_records(outm) + concat_records(lb_close(stm)));
            assert(concat_records(out1) + concat_records(lb_close(st1)) =~= (concat_records(outh)
                + concat_records(outm)) + concat_records(lb_close(stm)));
            assert((concat_records(outh) + concat_records(outm)) + concat_records(lb_close(stm))
                =~= concat_records(outh) + (concat_records(outm) + concat_records(lb_close(stm))));
        } else if b == LF {
            lemma_concat_singleton(st.buf.push(LF));
            assert(concat_records(outh) == st.buf.push(LF));
            assert((concat_records(outh) + concat_records(outm)) + concat_records(lb_close(stm))
                =~= st.buf.push(LF) + (concat_records(outm) + concat_records(lb_close(stm))));
            assert(concat_records(out1) + concat_records(lb_close(st1)) =~= (concat_records(outh)
                + concat_records(outm)) + concat_records(lb_close(stm)));
        } else {
            let buf0: Seq<u8> = if st.cr {
                Seq::empty()
            } else {
                st.buf
            };
            assert(buf0.len() < cap);
            assert(outh =~= Seq::<Seq<u8>>::empty());
            assert(concat_records(outh) =~= Seq::<u8>::empty());
            assert(concat_records(out1) + concat_records(lb_close(st1)) =~= (concat_records(outh)
                + concat_records(outm)) + concat_records(lb_close(stm)));
            assert((concat_records(outh) + concat_records(outm)) + concat_records(lb_close(stm))
                =~= concat_records(outm) + concat_records(lb_close(stm)));
        }
    }
}

/// For a stream no longer than the buffer cap, concatenating every record
/// the buffer emits, including the records flushed at close, reproduces the
/// input modulo the CR/LF normalisation: CR+LF becomes LF and
/// carriage-return-overwritten data is dropped.
pub proof fn lemma_accept_close_collapse(cap: nat, bytes: Seq<u8>)
    requires
        bytes.len() <= cap,
    ensures
        ({
            let (st, out) = lb_run(cap, lb_empty(), bytes);
            concat_records(out) + concat_records(lb_close(st)) == collapse(bytes)
        }),
{
    lemma_collapse_run(cap, lb_empty(), bytes);
}

} // verus!
