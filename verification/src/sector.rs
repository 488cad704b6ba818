//! A byte-granular buffered reader over a source that prefers
//! sector-aligned access, with seek to arbitrary offsets.

use vstd::prelude::*;

verus! {

/// The bytes a bounded read yields: the slice at `off`, truncated at the
/// end of the data; empty when `off` lies at or past the end.
pub open spec fn read_window(d: Seq<u8>, off: int, len: int) -> Seq<u8> {
    if off < 0 || len <= 0 || off >= d.len() {
        Seq::<u8>::empty()
    } else if off + len <= d.len() {
        d.subrange(off, off + len)
    } else {
        d.subrange(off, d.len() as int)
    }
}

/// A seekable byte store: the abstraction under the sector reader. The
/// in-memory source below implements it; an unverified caller may drive
/// the reader chunk by chunk instead.
pub trait ByteSource: Sized {
    spec fn data(&self) -> Seq<u8>;

    /// The store is an addressable byte range: its size fits in 64 bits.
    proof fn data_len_bounded(&self)
        ensures
            self.data().len() <= u64::MAX,
    ;

    /// Read up to `len` bytes at `offset`; short only at the end.
    fn read_at(&mut self, offset: u64, len: usize) -> (out: Vec<u8>)
        ensures
            final(self).data() == old(self).data(),
            out@ == read_window(old(self).data(), offset as int, len as int),
    ;
}

/// A source backed by an in-memory buffer.
pub struct MemSource {
    pub bytes: Vec<u8>,
}

impl ByteSource for MemSource {
    open spec fn data(&self) -> Seq<u8> {
        self.bytes@
    }

    proof fn data_len_bounded(&self) {
        broadcast use vstd::std_specs::vec::axiom_spec_len;

        assert(vstd::std_specs::vec::spec_vec_len(&self.bytes) == self.bytes@.len());
    }

    fn read_at(&mut self, offset: u64, len: usize) -> (out: Vec<u8>) {
        let n = self.bytes.len();
        let mut out: Vec<u8> = Vec::new();
        if offset >= n as u64 || len == 0 {
            proof {
                assert(out@ =~= read_window(self.bytes@, offset as int, len as int));
            }
            return out;
        }
        let start = offset as usize;
        let end = if len <= n - start {
            start + len
        } else {
            n
        };
        let mut i: usize = start;
        while i < end
            invariant
                self.bytes@.len() == n,
                start <= i <= end <= n,
                out@ == self.bytes@.subrange(start as int, i as int),
            decreases end - i,
        {
            out.push(self.bytes[i]);
            proof {
                assert(out@ =~= self.bytes@.subrange(start as int, i + 1));
            }
            i += 1;
        }
        proof {
            assert(out@ =~= read_window(self.bytes@, offset as int, len as int));
        }
        out
    }
}

/// What one buffered read yields: the requested bytes, cut at the end of
/// the containing sector and at the end of the data.
pub open spec fn sector_read_result(d: Seq<u8>, ss: int, pos: int, n: int) -> Seq<u8> {
    let sec_end = (pos / ss + 1) * ss;
    let end1 = if pos + n <= sec_end {
        pos + n
    } else {
        sec_end
    };
    let end = if end1 <= d.len() {
        end1
    } else {
        d.len() as int
    };
    if pos < 0 || n <= 0 || pos >= d.len() {
        Seq::<u8>::empty()
    } else {
        d.subrange(pos, end)
    }
}

/// Any buffered read hands back a contiguous slice of the data starting
/// at the position it was made at, and makes progress whenever data
/// remains.
pub proof fn lemma_read_facts(d: Seq<u8>, ss: int, pos: int, n: int)
    requires
        ss > 0,
        0 <= pos <= d.len(),
    ensures
        ({
            let r = sector_read_result(d, ss, pos, n);
            &&& pos + r.len() <= d.len()
            &&& r == d.subrange(pos, pos + r.len())
            &&& (pos < d.len() && n > 0 ==> r.len() > 0)
            &&& (n >= 0 ==> r.len() <= n)
        }),
{
    let q = pos / ss;
    vstd::arithmetic::div_mod::lemma_fundamental_div_mod(pos, ss);
    vstd::arithmetic::div_mod::lemma_mod_bound(pos, ss);
    assert((q + 1) * ss == q * ss + ss) by (nonlinear_arith);
    assert(ss * q == q * ss) by (nonlinear_arith);
    let r = sector_read_result(d, ss, pos, n);
    if pos < d.len() && n > 0 {
        assert(pos < (q + 1) * ss);
        assert(r =~= d.subrange(pos, pos + r.len()));
    } else {
        assert(r =~= d.subrange(pos, pos));
        assert(r =~= d.subrange(pos, pos + r.len()));
    }
}

/// An empty answer to a sized read means the position is at or past the
/// end of the data.
pub proof fn lemma_read_empty(d: Seq<u8>, ss: int, pos: int, n: int)
    requires
        ss > 0,
        0 <= pos,
        n > 0,
        sector_read_result(d, ss, pos, n).len() == 0,
    ensures
        pos >= d.len(),
{
    let q = pos / ss;
    vstd::arithmetic::div_mod::lemma_fundamental_div_mod(pos, ss);
    vstd::arithmetic::div_mod::lemma_mod_bound(pos, ss);
    assert((q + 1) * ss == q * ss + ss) by (nonlinear_arith);
    assert(ss * q == q * ss) by (nonlinear_arith);
    if pos < d.len() {
        assert(sector_read_result(d, ss, pos, n).len() > 0);
    }
}

/// A buffered adapter serving byte-granular reads out of whole-sector
/// fetches from the underlying source.
pub struct SectorReader<S: ByteSource> {
    inner: S,
    sector_size: usize,
    buffer: Vec<u8>,
    buffer_offset: u64,
    valid: bool,
    pos: u64,
}

impl<S: ByteSource> SectorReader<S> {
    /// The reader's buffer, when marked valid, holds exactly the sector
    /// window of the source at `buffer_offset`.
    pub closed spec fn wf(&self) -> bool {
        &&& self.sector_size > 0
        &&& self.valid ==> self.buffer@ == read_window(
            self.inner.data(),
            self.buffer_offset as int,
            self.sector_size as int,
        )
    }

    pub closed spec fn data(&self) -> Seq<u8> {
        self.inner.data()
    }

    pub closed spec fn position(&self) -> int {
        self.pos as int
    }

    /// The sector size the reader was built with.
    pub closed spec fn sec_size(&self) -> int {
        self.sector_size as int
    }

    pub fn new(inner: S, sector_size: usize) -> (r: Self)
        requires
            sector_size > 0,
        ensures
            r.wf(),
            r.data() == inner.data(),
            r.position() == 0,
            r.sec_size() == sector_size,
    {
        SectorReader {
            inner,
            sector_size,
            buffer: Vec::new(),
            buffer_offset: 0,
            valid: false,
            pos: 0,
        }
    }

    /// Move the logical position; the position may lie past the end of
    /// the data, in which case the next read yields nothing.
    pub fn seek_to(&mut self, p: u64)
        requires
            old(self).wf(),
        ensures
            final(self).wf(),
            final(self).data() == old(self).data(),
            final(self).position() == p,
            final(self).sec_size() == old(self).sec_size(),
    {
        self.pos = p;
    }

    pub fn current_position(&self) -> (p: u64)
        ensures
            p == self.position(),
    {
        self.pos
    }

    /// Read up to `n` bytes at the current position, served from the
    /// buffered sector; an empty answer with `n > 0` means the position
    /// is at or past the end of the data.
    pub fn read(&mut self, n: usize) -> (out: Vec<u8>)
        requires
            old(self).wf(),
        ensures
            final(self).wf(),
            final(self).data() == old(self).data(),
            final(self).sec_size() == old(self).sec_size(),
            out@ == sector_read_result(
                old(self).data(),
                old(self).sec_size(),
                old(self).position(),
                n as int,
            ),
            final(self).position() == old(self).position() + out@.len(),
    {
        let ghost d = self.inner.data();
        let ss = self.sector_size;
        if n == 0 {
            return Vec::new();
        }
        let ghost p = self.pos as int;
        let ghost ssi = ss as int;
        let ghost q = p / ssi;
        proof {
            vstd::arithmetic::div_mod::lemma_fundamental_div_mod(p, ssi);
            vstd::arithmetic::div_mod::lemma_mod_bound(p, ssi);
            assert((q + 1) * ssi == q * ssi + ssi) by (nonlinear_arith);
            assert(ssi * q == q * ssi) by (nonlinear_arith);
            assert(q * ssi <= p < q * ssi + ssi);
        }
        let sector_start = (self.pos / ss as u64) * ss as u64;
        let offset_in = (self.pos % ss as u64) as usize;
        proof {
            assert(sector_start as int == q * ssi);
            assert(sector_start + offset_in == p);
        }
        if !self.valid || self.buffer_offset != sector_start {
            let b = self.inner.read_at(sector_start, ss);
            self.buffer = b;
            self.buffer_offset = sector_start;
            self.valid = true;
        }
        proof {
            assert(self.buffer@ == read_window(d, sector_start as int, ssi));
        }
        let available = if offset_in < self.buffer.len() {
            self.buffer.len() - offset_in
        } else {
            0
        };
        let to_copy = if n < available {
            n
        } else {
            available
        };
        let mut out: Vec<u8> = Vec::new();
        proof {
            if available > 0 {
                assert(out@ =~= self.buffer@.subrange(offset_in as int, offset_in as int));
            }
        }
        let mut j: usize = 0;
        while j < to_copy
            invariant
                self.buffer@.len() <= usize::MAX,
                to_copy <= available,
                available == 0 ==> out@.len() == 0,
                available > 0 ==> offset_in + available <= self.buffer@.len() && out@
                    == self.buffer@.subrange(offset_in as int, offset_in + j),
                0 <= j <= to_copy,
            decreases to_copy - j,
        {
            out.push(self.buffer[offset_in + j]);
            proof {
                assert(out@ =~= self.buffer@.subrange(offset_in as int, offset_in + j + 1));
            }
            j += 1;
        }
        proof {
            let target = sector_read_result(d, ssi, p, n as int);
            if p < d.len() {
                assert(sector_start < d.len());
                if sector_start + ssi <= d.len() {
                    assert(self.buffer@.len() == ssi);
                } else {
                    assert(self.buffer@.len() == d.len() - sector_start);
                }
                assert(offset_in < self.buffer@.len());
                assert(available == self.buffer@.len() - offset_in);
                assert(out@.len() == to_copy);
                assert(out@.len() == target.len());
                assert(out@ =~= target);
                self.inner.data_len_bounded();
                assert(p + to_copy <= d.len());
            } else {
                assert(available == 0);
                assert(out@ =~= target);
            }
        }
        self.pos = self.pos + to_copy as u64;
        out
    }

    /// Read exactly `n` bytes, crossing sector boundaries as needed.
    /// Yields nothing when fewer than `n` bytes remain; the position is
    /// then left where the attempt stopped.
    pub fn read_exact(&mut self, n: usize) -> (out: Option<Vec<u8>>)
        requires
            old(self).wf(),
        ensures
            final(self).wf(),
            final(self).data() == old(self).data(),
            final(self).sec_size() == old(self).sec_size(),
            (out is Some) == (n == 0 || old(self).position() + n <= old(self).data().len()),
            out is Some ==> {
                &&& out.unwrap()@.len() == n
                &&& out.unwrap()@ == read_window(old(self).data(), old(self).position(), n as int)
                &&& final(self).position() == old(self).position() + n
            },
            out is None ==> final(self).position() >= old(self).position(),
    {
        let ghost d = self.inner.data();
        let ghost p0 = self.pos as int;
        let mut acc: Vec<u8> = Vec::new();
        while acc.len() < n
            invariant
                self.wf(),
                self.data() == d,
                d == old(self).data(),
                p0 == old(self).position(),
                self.sec_size() == old(self).sec_size(),
                n <= usize::MAX,
                acc@.len() <= n,
                self.position() == p0 + acc@.len(),
                0 <= p0,
                p0 + acc@.len() <= d.len() || acc@.len() == 0,
                acc@.len() > 0 ==> acc@ == d.subrange(p0, p0 + acc@.len()),
            decreases n - acc@.len(),
        {
            let want = n - acc.len();
            let ghost p1 = self.pos as int;
            let chunk = self.read(want);
            if chunk.len() == 0 {
                proof {
                    lemma_read_empty(d, self.sec_size(), p1, want as int);
                    assert(self.position() >= d.len());
                }
                return None;
            }
            proof {
                assert(p1 < d.len());
                lemma_read_facts(d, self.sec_size(), p1, want as int);
                assert(chunk@.len() <= want);
            }
            let mut j: usize = 0;
            let ghost acc0 = acc@;
            while j < chunk.len()
                invariant
                    0 <= j <= chunk@.len(),
                    acc@ == acc0 + chunk@.subrange(0, j as int),
                decreases chunk@.len() - j,
            {
                out_push(&mut acc, chunk[j]);
                proof {
                    assert(acc@ =~= acc0 + chunk@.subrange(0, j + 1));
                }
                j += 1;
            }
            proof {
                assert(chunk@.subrange(0, chunk@.len() as int) =~= chunk@);
                assert(acc@ =~= d.subrange(p0, p0 + acc@.len()));
            }
        }
        proof {
            assert(acc@.len() == n);
            if n > 0 {
                assert(acc@ =~= read_window(d, p0, n as int));
            } else {
                assert(acc@ =~= read_window(d, p0, n as int));
            }
        }
        Some(acc)
    }
}

fn out_push(v: &mut Vec<u8>, b: u8)
    ensures
        final(v)@ == old(v)@.push(b),
{
    v.push(b);
}

/// Consecutive buffered reads concatenate to one contiguous slice of the
/// data: reading never skips or repeats a byte.
pub proof fn lemma_reads_concat(d: Seq<u8>, ss: int, pos: int, n1: int, n2: int)
    requires
        ss > 0,
        0 <= pos <= d.len(),
    ensures
        ({
            let r1 = sector_read_result(d, ss, pos, n1);
            let r2 = sector_read_result(d, ss, pos + r1.len(), n2);
            r1 + r2 == d.subrange(pos, pos + r1.len() + r2.len())
        }),
{
    let r1 = sector_read_result(d, ss, pos, n1);
    lemma_read_facts(d, ss, pos, n1);
    let r2 = sector_read_result(d, ss, pos + r1.len(), n2);
    lemma_read_facts(d, ss, pos + r1.len(), n2);
    assert(r1 + r2 =~= d.subrange(pos, pos + r1.len() + r2.len()));
}

/// Two sequential reads that span a sector boundary yield the same bytes
/// as one equivalent unbuffered read of their combined length.
pub proof fn lemma_split_reads_match_unbuffered(d: Seq<u8>, ss: int, pos: int, n1: int, n2: int)
    requires
        ss > 0,
        0 <= pos <= d.len(),
        sector_read_result(d, ss, pos, n1).len() == n1,
        sector_read_result(d, ss, pos + n1, n2).len() == n2,
    ensures
        sector_read_result(d, ss, pos, n1) + sector_read_result(d, ss, pos + n1, n2) == read_window(
            d,
            pos,
            n1 + n2,
        ),
{
    lemma_reads_concat(d, ss, pos, n1, n2);
    let r1 = sector_read_result(d, ss, pos, n1);
    let r2 = sector_read_result(d, ss, pos + n1, n2);
    lemma_read_facts(d, ss, pos, n1);
    lemma_read_facts(d, ss, pos + n1, n2);
    if n1 + n2 > 0 {
        assert(read_window(d, pos, n1 + n2) =~= d.subrange(pos, pos + n1 + n2));
    } else {
        assert(r1 + r2 =~= read_window(d, pos, n1 + n2));
    }
}

} // verus!
