use crate::bytes::push_be16;
use crate::bytes::push_be32;
use crate::bytes::push_bytes;
use crate::bytes::spec_be16;
use crate::bytes::spec_be32;
use vstd::prelude::*;

verus! {

/// Pixel format code of a 4-bit grayscale texture.
pub const TXTR_FORMAT_I4: u32 = 0;

/// A game texture resource as generated for exported materials: format
/// word, dimensions, a derived mipmap count, and the mipmap pixel blobs.
#[derive(Debug, Clone, PartialEq)]
pub struct Txtr {
    pub format: u32,
    pub width: u16,
    pub height: u16,
    pub pixel_data: Vec<Vec<u8>>,
}

/// The mipmap blobs of a texture, concatenated in order.
pub open spec fn spec_mip_blobs(s: Seq<Vec<u8>>) -> Seq<u8>
    decreases s.len(),
{
    if s.len() == 0 {
        Seq::empty()
    } else {
        spec_mip_blobs(s.drop_last()) + s.last()@
    }
}

/// Total byte length of the mipmap blobs.
pub open spec fn spec_mip_total(s: Seq<Vec<u8>>) -> int
    decreases s.len(),
{
    if s.len() == 0 {
        0
    } else {
        spec_mip_total(s.drop_last()) + s.last()@.len()
    }
}

pub proof fn lemma_mip_lens(s: Seq<Vec<u8>>)
    ensures
        spec_mip_blobs(s).len() == spec_mip_total(s),
        spec_mip_total(s) >= 0,
    decreases s.len(),
{
    if s.len() > 0 {
        lemma_mip_lens(s.drop_last());
    }
}

/// A prefix of the mipmap list never holds more bytes than the whole.
pub proof fn lemma_mip_total_take_le(s: Seq<Vec<u8>>, i: int)
    requires
        0 <= i <= s.len(),
    ensures
        spec_mip_total(s.take(i)) <= spec_mip_total(s),
    decreases s.len() - i,
{
    if i < s.len() {
        assert(s.take(i + 1).drop_last() =~= s.take(i));
        assert(s.take(i + 1).last() == s[i]);
        assert(spec_mip_total(s.take(i + 1)) == spec_mip_total(s.take(i)) + s[i]@.len());
        lemma_mip_total_take_le(s, i + 1);
    } else {
        assert(s.take(i) =~= s);
    }
}

impl Txtr {
    /// Structural validity: the record fits the format's size fields.
    pub open spec fn wf(self) -> bool {
        &&& self.pixel_data@.len() <= 0xFF
        &&& self.spec_size() <= 0xFFFF_FF00
    }

    /// The exact serialized length, the mipmap count re-derived.
    pub open spec fn spec_size(self) -> int {
        4 + 2 + 2 + 4 + spec_mip_total(self.pixel_data@)
    }

    /// Exact serialized form: format, dimensions, the re-derived mipmap
    /// count, then the mipmap blobs.
    pub open spec fn spec_serialize(self) -> Seq<u8> {
        spec_be32(self.format) + spec_be16(self.width) + spec_be16(self.height) + spec_be32(
            self.pixel_data@.len() as u32,
        ) + spec_mip_blobs(self.pixel_data@)
    }

    /// The serialized form is exactly as long as the measured size says.
    pub proof fn lemma_size(self)
        ensures
            self.spec_serialize().len() == self.spec_size(),
            spec_mip_total(self.pixel_data@) >= 0,
    {
        lemma_mip_lens(self.pixel_data@);
    }

    /// The exact number of bytes [`Self::write_to`] emits.
    pub fn size(&self) -> (n: usize)
        requires
            self.wf(),
        ensures
            n == self.spec_size(),
            n == self.spec_serialize().len(),
    {
        proof {
            self.lemma_size();
        }
        let mut sum: usize = 12;
        let mut i: usize = 0;
        while i < self.pixel_data.len()
            invariant
                self.wf(),
                i <= self.pixel_data@.len(),
                sum == 12 + spec_mip_total(self.pixel_data@.take(i as int)),
            decreases self.pixel_data@.len() - i,
        {
            proof {
                assert(self.pixel_data@.take(i + 1).drop_last() =~= self.pixel_data@.take(
                    i as int,
                ));
                assert(self.pixel_data@.take(i + 1).last() == self.pixel_data@[i as int]);
                assert(spec_mip_total(self.pixel_data@.take(i + 1)) == spec_mip_total(
                    self.pixel_data@.take(i as int),
                ) + self.pixel_data@[i as int]@.len());
                lemma_mip_total_take_le(self.pixel_data@, i + 1);
                self.lemma_size();
            }
            sum = sum + self.pixel_data[i].len();
            i = i + 1;
        }
        proof {
            assert(self.pixel_data@.take(self.pixel_data@.len() as int) =~= self.pixel_data@);
        }
        sum
    }

    pub fn write_to(&self, out: &mut Vec<u8>) -> (n: usize)
        requires
            self.wf(),
        ensures
            final(out)@ == old(out)@ + self.spec_serialize(),
            n == self.spec_serialize().len(),
    {
        proof {
            self.lemma_size();
        }
        let n = self.size();
        let ghost base = out@;
        push_be32(out, self.format);
        push_be16(out, self.width);
        push_be16(out, self.height);
        push_be32(out, self.pixel_data.len() as u32);
        let ghost acc = spec_be32(self.format) + spec_be16(self.width) + spec_be16(self.height)
            + spec_be32(self.pixel_data@.len() as u32);
        proof {
            assert(out@ == base + acc);
        }
        let mut i: usize = 0;
        while i < self.pixel_data.len()
            invariant
                self.wf(),
                i <= self.pixel_data@.len(),
                out@ == base + acc + spec_mip_blobs(self.pixel_data@.take(i as int)),
            decreases self.pixel_data@.len() - i,
        {
            push_bytes(out, self.pixel_data[i].as_slice());
            proof {
                assert(self.pixel_data@.take(i + 1).drop_last() =~= self.pixel_data@.take(
                    i as int,
                ));
                assert(self.pixel_data@.take(i + 1).last() == self.pixel_data@[i as int]);
                assert(spec_mip_blobs(self.pixel_data@.take(i + 1)) == spec_mip_blobs(
                    self.pixel_data@.take(i as int),
                ) + self.pixel_data@[i as int]@);
                assert(out@ =~= base + acc + spec_mip_blobs(self.pixel_data@.take(i + 1)));
            }
            i = i + 1;
        }
        proof {
            assert(self.pixel_data@.take(self.pixel_data@.len() as int) =~= self.pixel_data@);
            assert(out@ == base + acc + spec_mip_blobs(self.pixel_data@));
            assert(acc + spec_mip_blobs(self.pixel_data@) =~= self.spec_serialize());
            assert(out@ =~= base + self.spec_serialize());
        }
        n
    }
}

} // verus!
