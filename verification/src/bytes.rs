use crate::errors::FormatError;
use vstd::prelude::*;
use vstd::slice::slice_index_get;
use vstd::slice::slice_subrange;
use vstd::slice::slice_to_vec;

verus! {

broadcast use vstd::slice::group_slice_axioms;

// Every multi-byte integer of the archive format is stored big-endian.
/// Big-endian encoding of a 16-bit value.
pub open spec fn spec_be16(x: u16) -> Seq<u8> {
    seq![(x >> 8) as u8, x as u8]
}

/// Big-endian encoding of a 32-bit value.
pub open spec fn spec_be32(x: u32) -> Seq<u8> {
    seq![(x >> 24) as u8, (x >> 16) as u8, (x >> 8) as u8, x as u8]
}

/// The 16-bit value stored big-endian in two bytes.
pub open spec fn spec_be16_of(b0: u8, b1: u8) -> u16 {
    ((b0 as u16) << 8) | (b1 as u16)
}

/// The 32-bit value stored big-endian in four bytes.
pub open spec fn spec_be32_of(b0: u8, b1: u8, b2: u8, b3: u8) -> u32 {
    ((b0 as u32) << 24) | ((b1 as u32) << 16) | ((b2 as u32) << 8) | (b3 as u32)
}

/// The 32-bit value stored little-endian in four bytes (used only for the
/// texture-identity hash, whose input ends in a little-endian color word).
pub open spec fn spec_le32_of(b0: u8, b1: u8, b2: u8, b3: u8) -> u32 {
    (b0 as u32) | ((b1 as u32) << 8) | ((b2 as u32) << 16) | ((b3 as u32) << 24)
}

/// Little-endian encoding of a 32-bit value.
pub open spec fn spec_le32(x: u32) -> Seq<u8> {
    seq![x as u8, (x >> 8) as u8, (x >> 16) as u8, (x >> 24) as u8]
}

pub proof fn lemma_be16_roundtrip(b0: u8, b1: u8)
    ensures
        spec_be16(spec_be16_of(b0, b1)) =~= seq![b0, b1],
{
    let x = spec_be16_of(b0, b1);
    assert(((((b0 as u16) << 8) | (b1 as u16)) >> 8) as u8 == b0) by (bit_vector);
    assert((((b0 as u16) << 8) | (b1 as u16)) as u8 == b1) by (bit_vector);
}

pub proof fn lemma_be32_roundtrip(b0: u8, b1: u8, b2: u8, b3: u8)
    ensures
        spec_be32(spec_be32_of(b0, b1, b2, b3)) =~= seq![b0, b1, b2, b3],
{
    let x = spec_be32_of(b0, b1, b2, b3);
    assert(((((b0 as u32) << 24) | ((b1 as u32) << 16) | ((b2 as u32) << 8) | (b3 as u32)) >> 24)
        as u8 == b0) by (bit_vector);
    assert(((((b0 as u32) << 24) | ((b1 as u32) << 16) | ((b2 as u32) << 8) | (b3 as u32)) >> 16)
        as u8 == b1) by (bit_vector);
    assert(((((b0 as u32) << 24) | ((b1 as u32) << 16) | ((b2 as u32) << 8) | (b3 as u32)) >> 8)
        as u8 == b2) by (bit_vector);
    assert((((b0 as u32) << 24) | ((b1 as u32) << 16) | ((b2 as u32) << 8) | (b3 as u32)) as u8
        == b3) by (bit_vector);
}

/// Concatenation of the encodings of every element of a sequence, in order.
pub open spec fn concat_bytes<T>(s: Seq<T>, f: spec_fn(T) -> Seq<u8>) -> Seq<u8>
    decreases s.len(),
{
    if s.len() == 0 {
        Seq::empty()
    } else {
        concat_bytes(s.drop_last(), f) + f(s.last())
    }
}

pub proof fn lemma_concat_bytes_uniform_len<T>(s: Seq<T>, f: spec_fn(T) -> Seq<u8>, k: int)
    requires
        forall|i: int| 0 <= i < s.len() ==> (#[trigger] f(s[i])).len() == k,
    ensures
        concat_bytes(s, f).len() == k * s.len(),
    decreases s.len(),
{
    if s.len() == 0 {
        assert(k * 0 == 0) by (nonlinear_arith);
    } else {
        assert forall|i: int| 0 <= i < s.drop_last().len() implies (#[trigger] f(
            s.drop_last()[i],
        )).len() == k by {
            assert(s.drop_last()[i] == s[i]);
        }
        lemma_concat_bytes_uniform_len(s.drop_last(), f, k);
        assert(f(s.last()).len() == k) by {
            assert(s.last() == s[s.len() - 1]);
        }
        assert(k * (s.len() - 1) + k == k * s.len()) by (nonlinear_arith);
    }
}

/// A run of zero bytes, as emitted for alignment padding.
pub open spec fn zero_bytes(n: int) -> Seq<u8> {
    Seq::new(n as nat, |i: int| 0u8)
}

/// How many zero bytes pad an offset up to the next 32-byte boundary.
pub open spec fn pad32_len(off: int) -> int {
    if off % 32 == 0 {
        0
    } else {
        32 - (off % 32)
    }
}

/// Exec computation of the 32-byte padding amount.
pub fn pad32_amount(off: usize) -> (r: usize)
    ensures
        r == pad32_len(off as int),
        0 <= r < 32,
        (off + r) % 32 == 0,
{
    let rem = off % 32;
    if rem == 0 {
        0
    } else {
        32 - rem
    }
}

/// A cursor over a borrowed byte buffer: the substrate every record of the
/// format is decoded from.  Sub-views and reads never copy the underlying
/// buffer; only `take_vec` materializes an owned range.
pub struct BinaryView<'a> {
    bytes: &'a [u8],
    pos: usize,
}

impl<'a> BinaryView<'a> {
    /// The whole underlying byte range.
    pub closed spec fn data(self) -> Seq<u8> {
        self.bytes@
    }

    /// The cursor's current offset into the range.
    pub closed spec fn position(self) -> int {
        self.pos as int
    }

    pub open spec fn wf(self) -> bool {
        0 <= self.position() <= self.data().len()
    }

    /// How many bytes are left past the cursor.
    pub open spec fn remaining(self) -> int {
        self.data().len() - self.position()
    }

    pub fn new(bytes: &'a [u8]) -> (r: BinaryView<'a>)
        ensures
            r.wf(),
            r.data() == bytes@,
            r.position() == 0,
    {
        BinaryView { bytes, pos: 0 }
    }

    pub fn position_exec(&self) -> (r: usize)
        ensures
            r == self.position(),
    {
        self.pos
    }

    pub fn remaining_exec(&self) -> (r: usize)
        requires
            self.wf(),
        ensures
            r == self.remaining(),
    {
        self.bytes.len() - self.pos
    }

    pub fn read_u8(&mut self) -> (r: Result<u8, FormatError>)
        requires
            old(self).wf(),
        ensures
            final(self).wf(),
            final(self).data() == old(self).data(),
            r matches Ok(x) ==> {
                &&& old(self).remaining() >= 1
                &&& final(self).position() == old(self).position() + 1
                &&& x == old(self).data()[old(self).position()]
            },
            r matches Err(e) ==> {
                &&& e == FormatError::Truncated
                &&& old(self).remaining() < 1
                &&& *final(self) == *old(self)
            },
    {
        if self.bytes.len() - self.pos >= 1 {
            let b = *slice_index_get(self.bytes, self.pos);
            self.pos = self.pos + 1;
            Ok(b)
        } else {
            Err(FormatError::Truncated)
        }
    }

    pub fn read_u16(&mut self) -> (r: Result<u16, FormatError>)
        requires
            old(self).wf(),
        ensures
            final(self).wf(),
            final(self).data() == old(self).data(),
            r matches Ok(x) ==> {
                &&& old(self).remaining() >= 2
                &&& final(self).position() == old(self).position() + 2
                &&& x == spec_be16_of(
                    old(self).data()[old(self).position()],
                    old(self).data()[old(self).position() + 1],
                )
                &&& spec_be16(x) == old(self).data().subrange(
                    old(self).position(),
                    old(self).position() + 2,
                )
            },
            r matches Err(e) ==> {
                &&& e == FormatError::Truncated
                &&& old(self).remaining() < 2
                &&& *final(self) == *old(self)
            },
    {
        if self.bytes.len() - self.pos >= 2 {
            let b0 = *slice_index_get(self.bytes, self.pos);
            let b1 = *slice_index_get(self.bytes, self.pos + 1);
            self.pos = self.pos + 2;
            let x = ((b0 as u16) << 8) | (b1 as u16);
            proof {
                lemma_be16_roundtrip(b0, b1);
                assert(spec_be16(x) =~= old(self).data().subrange(
                    old(self).position(),
                    old(self).position() + 2,
                ));
            }
            Ok(x)
        } else {
            Err(FormatError::Truncated)
        }
    }

    pub fn read_u32(&mut self) -> (r: Result<u32, FormatError>)
        requires
            old(self).wf(),
        ensures
            final(self).wf(),
            final(self).data() == old(self).data(),
            r matches Ok(x) ==> {
                &&& old(self).remaining() >= 4
                &&& final(self).position() == old(self).position() + 4
                &&& x == spec_be32_of(
                    old(self).data()[old(self).position()],
                    old(self).data()[old(self).position() + 1],
                    old(self).data()[old(self).position() + 2],
                    old(self).data()[old(self).position() + 3],
                )
                &&& spec_be32(x) == old(self).data().subrange(
                    old(self).position(),
                    old(self).position() + 4,
                )
            },
            r matches Err(e) ==> {
                &&& e == FormatError::Truncated
                &&& old(self).remaining() < 4
                &&& *final(self) == *old(self)
            },
    {
        if self.bytes.len() - self.pos >= 4 {
            let b0 = *slice_index_get(self.bytes, self.pos);
            let b1 = *slice_index_get(self.bytes, self.pos + 1);
            let b2 = *slice_index_get(self.bytes, self.pos + 2);
            let b3 = *slice_index_get(self.bytes, self.pos + 3);
            self.pos = self.pos + 4;
            let x = ((b0 as u32) << 24) | ((b1 as u32) << 16) | ((b2 as u32) << 8) | (b3 as u32);
            proof {
                lemma_be32_roundtrip(b0, b1, b2, b3);
                assert(spec_be32(x) =~= old(self).data().subrange(
                    old(self).position(),
                    old(self).position() + 4,
                ));
            }
            Ok(x)
        } else {
            Err(FormatError::Truncated)
        }
    }

    /// Copy the next `n` bytes out as an owned vector.
    pub fn take_vec(&mut self, n: usize) -> (r: Result<Vec<u8>, FormatError>)
        requires
            old(self).wf(),
        ensures
            final(self).wf(),
            final(self).data() == old(self).data(),
            r matches Ok(v) ==> {
                &&& old(self).remaining() >= n
                &&& final(self).position() == old(self).position() + n
                &&& v@ == old(self).data().subrange(
                    old(self).position(),
                    old(self).position() + n,
                )
            },
            r matches Err(e) ==> {
                &&& e == FormatError::Truncated
                &&& old(self).remaining() < n
                &&& *final(self) == *old(self)
            },
    {
        if self.bytes.len() - self.pos >= n {
            let sub = slice_subrange(self.bytes, self.pos, self.pos + n);
            let v = slice_to_vec(sub);
            self.pos = self.pos + n;
            Ok(v)
        } else {
            Err(FormatError::Truncated)
        }
    }

    /// Consume `n` bytes of alignment padding, requiring each to be zero.
    pub fn read_zeros(&mut self, n: usize) -> (r: Result<(), FormatError>)
        requires
            old(self).wf(),
        ensures
            final(self).wf(),
            final(self).data() == old(self).data(),
            r matches Ok(u) ==> {
                &&& old(self).remaining() >= n
                &&& final(self).position() == old(self).position() + n
                &&& old(self).data().subrange(old(self).position(), old(self).position() + n)
                    == zero_bytes(n as int)
            },
            r is Ok <==> (old(self).remaining() >= n && old(self).data().subrange(
                old(self).position(),
                old(self).position() + n,
            ) == zero_bytes(n as int)),
            r == Err::<(), FormatError>(FormatError::Truncated) <==> old(self).remaining() < n,
            r is Err ==> (r matches Err(e) ==> e == FormatError::Truncated
                || e == FormatError::NonzeroPadding),
    {
        if self.remaining_exec() < n {
            return Err(FormatError::Truncated);
        }
        let ghost start = self.position();
        let mut i: usize = 0;
        while i < n
            invariant
                self.wf(),
                self.data() == old(self).data(),
                start == old(self).position(),
                self.position() == start + i,
                i <= n,
                old(self).remaining() >= n,
                forall|j: int| start <= j < start + i ==> old(self).data()[j] == 0u8,
            decreases n - i,
        {
            let b = match self.read_u8() {
                Ok(b) => b,
                Err(e) => {
                    return Err(e);
                },
            };
            if b != 0 {
                proof {
                    assert(old(self).data().subrange(start, start + n)[i as int] != zero_bytes(
                        n as int,
                    )[i as int]);
                }
                return Err(FormatError::NonzeroPadding);
            }
            i = i + 1;
        }
        proof {
            assert(old(self).data().subrange(start, start + n) =~= zero_bytes(n as int));
        }
        Ok(())
    }
}

/// Append the big-endian encoding of a 16-bit value to a sink.
pub fn push_be16(out: &mut Vec<u8>, x: u16)
    ensures
        final(out)@ == old(out)@ + spec_be16(x),
{
    let b0 = #[verifier::truncate] ((x >> 8) as u8);
    let b1 = #[verifier::truncate] (x as u8);
    out.push(b0);
    out.push(b1);
    proof {
        assert(final(out)@ =~= old(out)@ + spec_be16(x));
    }
}

/// Append the big-endian encoding of a 32-bit value to a sink.
pub fn push_be32(out: &mut Vec<u8>, x: u32)
    ensures
        final(out)@ == old(out)@ + spec_be32(x),
{
    let b0 = #[verifier::truncate] ((x >> 24) as u8);
    let b1 = #[verifier::truncate] ((x >> 16) as u8);
    let b2 = #[verifier::truncate] ((x >> 8) as u8);
    let b3 = #[verifier::truncate] (x as u8);
    out.push(b0);
    out.push(b1);
    out.push(b2);
    out.push(b3);
    proof {
        assert(final(out)@ =~= old(out)@ + spec_be32(x));
    }
}

/// Append a borrowed byte range to a sink.
pub fn push_bytes(out: &mut Vec<u8>, bytes: &[u8])
    ensures
        final(out)@ == old(out)@ + bytes@,
{
    out.extend_from_slice(bytes);
}

/// Append `n` zero bytes of alignment padding to a sink.
pub fn push_zeros(out: &mut Vec<u8>, n: usize)
    ensures
        final(out)@ == old(out)@ + zero_bytes(n as int),
{
    let mut i: usize = 0;
    while i < n
        invariant
            i <= n,
            out@ == old(out)@ + zero_bytes(i as int),
        decreases n - i,
    {
        out.push(0u8);
        proof {
            assert(out@ =~= old(out)@ + zero_bytes(i + 1));
        }
        i = i + 1;
    }
}

/// Big-endian encoding of a whole sequence of 32-bit values.
pub open spec fn spec_be32_array(s: Seq<u32>) -> Seq<u8> {
    concat_bytes(s, |x: u32| spec_be32(x))
}

pub proof fn lemma_be32_array_len(s: Seq<u32>)
    ensures
        spec_be32_array(s).len() == 4 * s.len(),
{
    lemma_concat_bytes_uniform_len(s, |x: u32| spec_be32(x), 4);
}

/// Append the big-endian encodings of every element of an array.
pub fn push_be32_array(out: &mut Vec<u8>, v: &Vec<u32>)
    ensures
        final(out)@ == old(out)@ + spec_be32_array(v@),
{
    let mut i: usize = 0;
    while i < v.len()
        invariant
            i <= v.len(),
            out@ == old(out)@ + spec_be32_array(v@.take(i as int)),
        decreases v.len() - i,
    {
        let x = v[i];
        push_be32(out, x);
        proof {
            assert(v@.take(i + 1).drop_last() =~= v@.take(i as int));
            assert(v@.take(i + 1).last() == x);
            assert(spec_be32_array(v@.take(i + 1)) == spec_be32_array(v@.take(i as int))
                + spec_be32(x));
        }
        i = i + 1;
    }
    proof {
        assert(v@.take(v@.len() as int) =~= v@);
    }
}

/// Read `n` big-endian 32-bit values.
pub fn read_be32_array(v: &mut BinaryView, n: usize) -> (r: Result<Vec<u32>, FormatError>)
    requires
        old(v).wf(),
    ensures
        final(v).wf(),
        final(v).data() == old(v).data(),
        r matches Ok(a) ==> {
            &&& a@.len() == n
            &&& final(v).position() == old(v).position() + 4 * n
            &&& spec_be32_array(a@) == old(v).data().subrange(
                old(v).position(),
                final(v).position(),
            )
        },
        r matches Err(e) ==> e == FormatError::Truncated && old(v).remaining() < 4 * n,
    {
    let mut a: Vec<u32> = Vec::new();
    let ghost start = v.position();
    let mut i: usize = 0;
    while i < n
        invariant
            v.wf(),
            v.data() == old(v).data(),
            start == old(v).position(),
            i <= n,
            a@.len() == i,
            v.position() == start + 4 * i,
            spec_be32_array(a@) == old(v).data().subrange(start, v.position()),
        decreases n - i,
    {
        let ghost pos0 = v.position();
        let ghost a0 = a@;
        let x = match v.read_u32() {
            Ok(x) => x,
            Err(e) => {
                return Err(e);
            },
        };
        a.push(x);
        proof {
            assert(a@ =~= a0.push(x));
            assert(a@.drop_last() =~= a0);
            assert(a@.last() == x);
            assert(spec_be32_array(a@) == spec_be32_array(a0) + spec_be32(x));
            assert(old(v).data().subrange(start, pos0) + old(v).data().subrange(
                pos0,
                v.position(),
            ) =~= old(v).data().subrange(start, v.position()));
        }
        i = i + 1;
    }
    Ok(a)
}


/// Adjacent subranges of one sequence concatenate to the enclosing subrange.
pub proof fn lemma_subrange_join(s: Seq<u8>, a: int, b: int, c: int)
    requires
        0 <= a <= b <= c <= s.len(),
    ensures
        s.subrange(a, b) + s.subrange(b, c) == s.subrange(a, c),
{
    assert(s.subrange(a, b) + s.subrange(b, c) =~= s.subrange(a, c));
}

/// An empty subrange is the empty sequence.
pub proof fn lemma_subrange_empty(s: Seq<u8>, a: int)
    requires
        0 <= a <= s.len(),
    ensures
        s.subrange(a, a) == Seq::<u8>::empty(),
{
    assert(s.subrange(a, a) =~= Seq::<u8>::empty());
}


/// The 32-bit value stored big-endian at a byte offset of a sequence.
pub open spec fn spec_u32_at(s: Seq<u8>, off: int) -> u32 {
    spec_be32_of(s[off], s[off + 1], s[off + 2], s[off + 3])
}

} // verus!
