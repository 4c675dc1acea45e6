use crate::bytes::push_be32;
use crate::bytes::read_be32_array;
use crate::bytes::spec_be32;
use crate::bytes::spec_be32_array;
use crate::bytes::BinaryView;
use crate::errors::FormatError;
use vstd::prelude::*;

verus! {

/// Magic word of a scripts section.
pub const SCLY_MAGIC: u32 = 0x53434C59;

/// The scripts section of a room: a magic word, a version word, and a list
/// of script layers.  Layers are carried as opaque byte blobs; their size
/// table is re-derived from the live blobs on write.
#[derive(Debug, Clone, PartialEq)]
pub struct Scly {
    pub unknown: u32,
    pub layers: Vec<Vec<u8>>,
}

/// The layer size table: one big-endian word per layer, holding that
/// layer's byte length.
pub open spec fn spec_layer_size_table(s: Seq<Vec<u8>>) -> Seq<u8>
    decreases s.len(),
{
    if s.len() == 0 {
        Seq::empty()
    } else {
        spec_layer_size_table(s.drop_last()) + spec_be32(s.last()@.len() as u32)
    }
}

/// The layer blobs, concatenated in order.
pub open spec fn spec_layer_blobs(s: Seq<Vec<u8>>) -> Seq<u8>
    decreases s.len(),
{
    if s.len() == 0 {
        Seq::empty()
    } else {
        spec_layer_blobs(s.drop_last()) + s.last()@
    }
}

/// Total byte length of the layer blobs.
pub open spec fn spec_blob_total(s: Seq<Vec<u8>>) -> int
    decreases s.len(),
{
    if s.len() == 0 {
        0
    } else {
        spec_blob_total(s.drop_last()) + s.last()@.len()
    }
}

pub proof fn lemma_layer_lens(s: Seq<Vec<u8>>)
    ensures
        spec_layer_size_table(s).len() == 4 * s.len(),
        spec_layer_blobs(s).len() == spec_blob_total(s),
        spec_blob_total(s) >= 0,
    decreases s.len(),
{
    if s.len() > 0 {
        lemma_layer_lens(s.drop_last());
    }
}

/// A prefix of the layer list never holds more blob bytes than the whole.
pub proof fn lemma_blob_total_take_le(s: Seq<Vec<u8>>, i: int)
    requires
        0 <= i <= s.len(),
    ensures
        spec_blob_total(s.take(i)) <= spec_blob_total(s),
    decreases s.len() - i,
{
    if i < s.len() {
        assert(s.take(i + 1).drop_last() =~= s.take(i));
        assert(s.take(i + 1).last() == s[i]);
        assert(spec_blob_total(s.take(i + 1)) == spec_blob_total(s.take(i)) + s[i]@.len());
        lemma_blob_total_take_le(s, i + 1);
    } else {
        assert(s.take(i) =~= s);
    }
}

impl Scly {
    /// Structural validity: each layer's length fits its size-table word
    /// and the record fits the format's 32-bit size fields.
    pub open spec fn wf(self) -> bool {
        self.spec_size() <= 0xFFFF_FF00
    }

    /// The exact serialized length, counts re-derived from the live layers.
    pub open spec fn spec_size(self) -> int {
        4 + 4 + 4 + 4 * (self.layers@.len() as int) + spec_blob_total(self.layers@)
    }

    /// Exact serialized form: magic, version word, layer count, the
    /// re-derived size table, then the layer blobs.
    pub open spec fn spec_serialize(self) -> Seq<u8> {
        spec_be32(SCLY_MAGIC) + spec_be32(self.unknown) + spec_be32(self.layers@.len() as u32)
            + spec_layer_size_table(self.layers@) + spec_layer_blobs(self.layers@)
    }

    /// The serialized form is exactly as long as the measured size says.
    pub proof fn lemma_size(self)
        ensures
            self.spec_serialize().len() == self.spec_size(),
            spec_blob_total(self.layers@) >= 0,
    {
        lemma_layer_lens(self.layers@);
    }

    #[verifier::rlimit(100)]
    #[verifier::spinoff_prover]
    pub fn read_from(v: &mut BinaryView) -> (r: Result<Scly, FormatError>)
        requires
            old(v).wf(),
            old(v).data().len() <= 0xFFFF_FF00,
        ensures
            final(v).wf(),
            final(v).data() == old(v).data(),
            r matches Ok(s) ==> {
                &&& s.wf()
                &&& final(v).position() == old(v).position() + s.spec_size()
                &&& s.spec_serialize() == old(v).data().subrange(
                    old(v).position(),
                    final(v).position(),
                )
            },
            r matches Err(e) ==> e == FormatError::Truncated || e == FormatError::UnexpectedMagic,
    {
        let ghost p0 = v.position();
        let magic = v.read_u32()?;
        if magic != SCLY_MAGIC {
            return Err(FormatError::UnexpectedMagic);
        }
        let ghost mut acc = spec_be32(SCLY_MAGIC);
        let ghost mut prev = v.position();
        let unknown = v.read_u32()?;
        proof {
            crate::bytes::lemma_subrange_join(old(v).data(), p0, prev, v.position());
            acc = acc + spec_be32(unknown);
            prev = v.position();
        }
        let layer_count = v.read_u32()?;
        proof {
            crate::bytes::lemma_subrange_join(old(v).data(), p0, prev, v.position());
            acc = acc + spec_be32(layer_count);
            prev = v.position();
        }
        let layer_sizes = read_be32_array(v, layer_count as usize)?;
        let mut layers: Vec<Vec<u8>> = Vec::new();
        let n = layer_count as usize;
        let mut i: usize = 0;
        let ghost bstart = v.position();
        while i < n
            invariant
                old(v).wf(),
                v.wf(),
                v.data() == old(v).data(),
                0 <= bstart <= v.position(),
                i <= n,
                n == layer_sizes@.len(),
                layers@.len() == i,
                v.position() == bstart + spec_blob_total(layers@),
                spec_layer_blobs(layers@) == old(v).data().subrange(bstart, v.position()),
                spec_layer_size_table(layers@) == crate::bytes::spec_be32_array(
                    layer_sizes@.take(i as int),
                ),
            decreases n - i,
        {
            let ghost pos0 = v.position();
            let ghost l0 = layers@;
            let size = layer_sizes[i];
            let blob = match v.take_vec(size as usize) {
                Ok(b) => b,
                Err(e) => {
                    return Err(e);
                },
            };
            layers.push(blob);
            proof {
                assert(layers@ =~= l0.push(layers@.last()));
                assert(layers@.drop_last() =~= l0);
                assert(spec_layer_blobs(layers@) == spec_layer_blobs(l0) + layers@.last()@);
                assert(spec_blob_total(layers@) == spec_blob_total(l0) + layers@.last()@.len());
                assert(spec_layer_size_table(layers@) == spec_layer_size_table(l0) + spec_be32(
                    layers@.last()@.len() as u32,
                ));
                crate::bytes::lemma_subrange_join(old(v).data(), bstart, pos0, v.position());
                assert(layer_sizes@.take(i + 1).drop_last() =~= layer_sizes@.take(i as int));
                assert(layer_sizes@.take(i + 1).last() == size);
                assert(spec_be32_array(layer_sizes@.take(i + 1)) == spec_be32_array(
                    layer_sizes@.take(i as int),
                ) + spec_be32(size));
                assert(layers@.last()@.len() as u32 == size);
            }
            i = i + 1;
        }
        let s = Scly { unknown, layers };
        proof {
            s.lemma_size();
            lemma_layer_lens(layers@);
            crate::bytes::lemma_be32_array_len(layer_sizes@);
            assert(layer_sizes@.take(n as int) =~= layer_sizes@);
            crate::bytes::lemma_subrange_join(old(v).data(), p0, prev, bstart);
            crate::bytes::lemma_subrange_join(old(v).data(), p0, bstart, v.position());
            assert(acc + spec_be32_array(layer_sizes@) == old(v).data().subrange(p0, bstart));
            assert(s.spec_serialize() == acc + spec_be32_array(layer_sizes@) + spec_layer_blobs(
                layers@,
            ));
            assert(s.spec_serialize() == old(v).data().subrange(p0, v.position()));
            assert(s.spec_size() == v.position() - p0);
            assert(s.wf());
        }
        Ok(s)
    }

    /// The exact number of bytes [`Self::write_to`] emits.
    pub fn size(&self) -> (n: usize)
        requires
            self.wf(),
        ensures
            n == self.spec_size(),
            n == self.spec_serialize().len(),
    {
        proof {
            self.lemma_size();
        }
        let mut sum: usize = 4 + 4 + 4 + 4 * self.layers.len();
        let mut i: usize = 0;
        let mut bsum: usize = 0;
        while i < self.layers.len()
            invariant
                self.wf(),
                i <= self.layers@.len(),
                bsum == spec_blob_total(self.layers@.take(i as int)),
            decreases self.layers@.len() - i,
        {
            proof {
                assert(self.layers@.take(i + 1).drop_last() =~= self.layers@.take(i as int));
                assert(self.layers@.take(i + 1).last() == self.layers@[i as int]);
                assert(spec_blob_total(self.layers@.take(i + 1)) == spec_blob_total(
                    self.layers@.take(i as int),
                ) + self.layers@[i as int]@.len());
                lemma_blob_total_take_le(self.layers@, i + 1);
                self.lemma_size();
            }
            bsum = bsum + self.layers[i].len();
            i = i + 1;
        }
        proof {
            assert(self.layers@.take(self.layers@.len() as int) =~= self.layers@);
        }
        sum + bsum
    }

    #[verifier::rlimit(100)]
    #[verifier::spinoff_prover]
    pub fn write_to(&self, out: &mut Vec<u8>) -> (n: usize)
        requires
            self.wf(),
        ensures
            final(out)@ == old(out)@ + self.spec_serialize(),
            n == self.spec_serialize().len(),
    {
        proof {
            self.lemma_size();
        }
        let n = self.size();
        let ghost base = out@;
        push_be32(out, SCLY_MAGIC);
        push_be32(out, self.unknown);
        push_be32(out, self.layers.len() as u32);
        let ghost mut acc = spec_be32(SCLY_MAGIC) + spec_be32(self.unknown) + spec_be32(
            self.layers@.len() as u32,
        );
        proof {
            assert(out@ == base + acc);
        }
        let mut i: usize = 0;
        while i < self.layers.len()
            invariant
                self.wf(),
                i <= self.layers@.len(),
                out@ == base + acc + spec_layer_size_table(self.layers@.take(i as int)),
            decreases self.layers@.len() - i,
        {
            proof {
                lemma_blob_total_take_le(self.layers@, i + 1);
                assert(self.layers@.take(i + 1).drop_last() =~= self.layers@.take(i as int));
                assert(self.layers@.take(i + 1).last() == self.layers@[i as int]);
                assert(spec_blob_total(self.layers@.take(i + 1)) == spec_blob_total(
                    self.layers@.take(i as int),
                ) + self.layers@[i as int]@.len());
                lemma_layer_lens(self.layers@.take(i as int));
                self.lemma_size();
            }
            let len = self.layers[i].len();
            push_be32(out, len as u32);
            proof {
                assert(spec_layer_size_table(self.layers@.take(i + 1)) == spec_layer_size_table(
                    self.layers@.take(i as int),
                ) + spec_be32(self.layers@[i as int]@.len() as u32));
                assert(out@ =~= base + acc + spec_layer_size_table(self.layers@.take(i + 1)));
            }
            i = i + 1;
        }
        proof {
            assert(self.layers@.take(self.layers@.len() as int) =~= self.layers@);
            acc = acc + spec_layer_size_table(self.layers@);
            assert(out@ == base + acc);
        }
        let mut i2: usize = 0;
        while i2 < self.layers.len()
            invariant
                self.wf(),
                i2 <= self.layers@.len(),
                out@ == base + acc + spec_layer_blobs(self.layers@.take(i2 as int)),
            decreases self.layers@.len() - i2,
        {
            crate::bytes::push_bytes(out, self.layers[i2].as_slice());
            proof {
                assert(self.layers@.take(i2 + 1).drop_last() =~= self.layers@.take(i2 as int));
                assert(self.layers@.take(i2 + 1).last() == self.layers@[i2 as int]);
                assert(spec_layer_blobs(self.layers@.take(i2 + 1)) == spec_layer_blobs(
                    self.layers@.take(i2 as int),
                ) + self.layers@[i2 as int]@);
                assert(out@ =~= base + acc + spec_layer_blobs(self.layers@.take(i2 + 1)));
            }
            i2 = i2 + 1;
        }
        proof {
            assert(self.layers@.take(self.layers@.len() as int) =~= self.layers@);
            assert(out@ == base + acc + spec_layer_blobs(self.layers@));
            assert(acc + spec_layer_blobs(self.layers@) =~= self.spec_serialize());
            assert(out@ =~= base + self.spec_serialize());
        }
        n
    }
}

} // verus!
