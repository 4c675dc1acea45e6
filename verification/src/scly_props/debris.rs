use crate::bytes::push_be32;
use crate::bytes::push_be32_array;
use crate::bytes::push_bytes;
use crate::bytes::read_be32_array;
use crate::bytes::spec_be32;
use crate::bytes::spec_be32_array;
use crate::bytes::BinaryView;
use crate::errors::FormatError;
use vstd::prelude::*;

verus! {

/// The property count a debris script object declares.
pub const DEBRIS_PROP_COUNT: u32 = 24;

/// The script-object type code of a debris object.
pub const DEBRIS_OBJECT_TYPE: u8 = 0x1B;

/// The leading properties of a debris script object: the declared property
/// count, a NUL-terminated name, and the position, rotation and scale
/// triples as raw 32-bit float words.  Only this prefix of the object is
/// modeled; the codec reads and writes it exactly.
#[derive(Debug, Clone, PartialEq)]
pub struct Debris {
    pub name: Vec<u8>,
    pub position: Vec<u32>,
    pub rotation: Vec<u32>,
    pub scale: Vec<u32>,
}

impl Debris {
    /// Structural validity: the name holds no NUL byte and each triple
    /// holds three words.
    pub open spec fn wf(self) -> bool {
        &&& (forall|i: int| 0 <= i < self.name@.len() ==> self.name@[i] != 0u8)
        &&& self.position@.len() == 3
        &&& self.rotation@.len() == 3
        &&& self.scale@.len() == 3
    }

    /// Exact serialized form of the modeled prefix.
    pub open spec fn spec_serialize(self) -> Seq<u8> {
        spec_be32(DEBRIS_PROP_COUNT) + self.name@ + seq![0u8] + spec_be32_array(self.position@)
            + spec_be32_array(self.rotation@) + spec_be32_array(self.scale@)
    }

    /// The serialized length of the modeled prefix.
    pub open spec fn spec_size(self) -> int {
        4 + (self.name@.len() as int) + 1 + 36
    }

    pub proof fn lemma_size(self)
        requires
            self.wf(),
        ensures
            self.spec_serialize().len() == self.spec_size(),
    {
        crate::bytes::lemma_be32_array_len(self.position@);
        crate::bytes::lemma_be32_array_len(self.rotation@);
        crate::bytes::lemma_be32_array_len(self.scale@);
    }

    /// The script-object type code this property layout belongs to.
    pub fn object_type(&self) -> (r: u8)
        ensures
            r == DEBRIS_OBJECT_TYPE,
    {
        DEBRIS_OBJECT_TYPE
    }

    pub fn read_from(v: &mut BinaryView) -> (r: Result<Debris, FormatError>)
        requires
            old(v).wf(),
        ensures
            final(v).wf(),
            final(v).data() == old(v).data(),
            r matches Ok(d) ==> {
                &&& d.wf()
                &&& final(v).position() == old(v).position() + d.spec_size()
                &&& d.spec_serialize() == old(v).data().subrange(
                    old(v).position(),
                    final(v).position(),
                )
            },
            r matches Err(e) ==> e == FormatError::Truncated || e
                == FormatError::UnexpectedMagic,
    {
        let ghost p0 = v.position();
        let prop_count = v.read_u32()?;
        if prop_count != DEBRIS_PROP_COUNT {
            return Err(FormatError::UnexpectedMagic);
        }
        let ghost nstart = v.position();
        let mut name: Vec<u8> = Vec::new();
        loop
            invariant_except_break
                v.position() == nstart + name@.len(),
            invariant
                old(v).wf(),
                v.wf(),
                v.data() == old(v).data(),
                0 <= nstart,
                nstart + name@.len() <= v.position(),
                name@ == old(v).data().subrange(nstart, nstart + name@.len()),
                forall|i: int| 0 <= i < name@.len() ==> name@[i] != 0u8,
            ensures
                v.position() == nstart + name@.len() + 1,
                old(v).data()[nstart + name@.len()] == 0u8,
            decreases v.remaining(),
        {
            let b = match v.read_u8() {
                Ok(b) => b,
                Err(e) => {
                    return Err(e);
                },
            };
            if b == 0 {
                break ;
            }
            let ghost n0 = name@;
            name.push(b);
            proof {
                assert(name@ =~= old(v).data().subrange(nstart, nstart + name@.len()));
            }
        }
        let ghost pos_after_name = v.position();
        let position = read_be32_array(v, 3)?;
        let rotation = read_be32_array(v, 3)?;
        let scale = read_be32_array(v, 3)?;
        let d = Debris { name, position, rotation, scale };
        proof {
            d.lemma_size();
            assert(d.spec_serialize() =~= old(v).data().subrange(p0, v.position()));
        }
        Ok(d)
    }

    /// The exact number of bytes [`Self::write_to`] emits.
    pub fn size(&self) -> (n: usize)
        requires
            self.wf(),
            self.spec_size() <= 0xFFFF_FF00,
        ensures
            n == self.spec_size(),
            n == self.spec_serialize().len(),
    {
        proof {
            self.lemma_size();
        }
        4 + self.name.len() + 1 + 36
    }

    pub fn write_to(&self, out: &mut Vec<u8>) -> (n: usize)
        requires
            self.wf(),
            self.spec_size() <= 0xFFFF_FF00,
        ensures
            final(out)@ == old(out)@ + self.spec_serialize(),
            n == self.spec_serialize().len(),
    {
        proof {
            self.lemma_size();
        }
        let n = self.size();
        push_be32(out, DEBRIS_PROP_COUNT);
        push_bytes(out, self.name.as_slice());
        out.push(0u8);
        push_be32_array(out, &self.position);
        push_be32_array(out, &self.rotation);
        push_be32_array(out, &self.scale);
        proof {
            assert(final(out)@ =~= old(out)@ + self.spec_serialize());
        }
        n
    }
}

} // verus!
