use crate::bytes::pad32_amount;
use crate::bytes::pad32_len;
use crate::bytes::push_be32;
use crate::bytes::push_be32_array;
use crate::bytes::push_bytes;
use crate::bytes::push_zeros;
use crate::bytes::read_be32_array;
use crate::bytes::spec_be32;
use crate::bytes::spec_be32_array;
use crate::bytes::spec_u32_at;
use crate::bytes::zero_bytes;
use crate::bytes::BinaryView;
use crate::cmdl::CmdlMaterialSet;
use crate::collision::AreaCollision;
use crate::errors::FormatError;
use crate::scly::Scly;
use vstd::prelude::*;

verus! {

/// Magic word of a room container.
pub const MREA_MAGIC: u32 = 0xDEADBEEF;

/// Version word of a room container.
pub const MREA_VERSION: u32 = 0xF;

/// Magic word of a lights section.
pub const LIGHTS_MAGIC: u32 = 0xBABEDEAD;

/// One light of a lights section: sixty-five fixed-layout bytes.  The
/// triple fields and the scalar parameters are 32-bit floats carried as raw
/// bit patterns; the codec never interprets them.
#[derive(Debug, Clone, PartialEq)]
pub struct LightLayer {
    pub light_type: u32,
    pub color: Vec<u32>,
    pub position: Vec<u32>,
    pub direction: Vec<u32>,
    pub brightness: u32,
    pub spot_cutoff: u32,
    pub unknown0: u32,
    pub unknown1: u8,
    pub unknown2: u32,
    pub falloff_type: u32,
    pub unknown3: u32,
}

impl LightLayer {
    /// Structural validity: the three triples hold three words each.
    pub open spec fn wf(self) -> bool {
        &&& self.color@.len() == 3
        &&& self.position@.len() == 3
        &&& self.direction@.len() == 3
    }

    /// Exact serialized form.
    pub open spec fn spec_serialize(self) -> Seq<u8> {
        spec_be32(self.light_type) + spec_be32_array(self.color@) + spec_be32_array(
            self.position@,
        ) + spec_be32_array(self.direction@) + spec_be32(self.brightness) + spec_be32(
            self.spot_cutoff,
        ) + spec_be32(self.unknown0) + seq![self.unknown1] + spec_be32(self.unknown2) + spec_be32(
            self.falloff_type,
        ) + spec_be32(self.unknown3)
    }

    pub proof fn lemma_size(self)
        requires
            self.wf(),
        ensures
            self.spec_serialize().len() == 65,
    {
        crate::bytes::lemma_be32_array_len(self.color@);
        crate::bytes::lemma_be32_array_len(self.position@);
        crate::bytes::lemma_be32_array_len(self.direction@);
    }

    pub fn read_from(v: &mut BinaryView) -> (r: Result<LightLayer, FormatError>)
        requires
            old(v).wf(),
        ensures
            final(v).wf(),
            final(v).data() == old(v).data(),
            r matches Ok(l) ==> {
                &&& l.wf()
                &&& final(v).position() == old(v).position() + 65
                &&& l.spec_serialize() == old(v).data().subrange(
                    old(v).position(),
                    old(v).position() + 65,
                )
            },
            r matches Err(e) ==> e == FormatError::Truncated && old(v).remaining() < 65,
            old(v).remaining() >= 65 ==> r is Ok,
    {
        let ghost p0 = v.position();
        let light_type = v.read_u32()?;
        let color = read_be32_array(v, 3)?;
        let position = read_be32_array(v, 3)?;
        let direction = read_be32_array(v, 3)?;
        let brightness = v.read_u32()?;
        let spot_cutoff = v.read_u32()?;
        let unknown0 = v.read_u32()?;
        let unknown1 = v.read_u8()?;
        let unknown2 = v.read_u32()?;
        let falloff_type = v.read_u32()?;
        let unknown3 = v.read_u32()?;
        let l = LightLayer {
            light_type,
            color,
            position,
            direction,
            brightness,
            spot_cutoff,
            unknown0,
            unknown1,
            unknown2,
            falloff_type,
            unknown3,
        };
        proof {
            l.lemma_size();
            assert(l.spec_serialize() =~= old(v).data().subrange(p0, p0 + 65));
        }
        Ok(l)
    }

    pub fn write_to(&self, out: &mut Vec<u8>) -> (n: usize)
        requires
            self.wf(),
        ensures
            final(out)@ == old(out)@ + self.spec_serialize(),
            n == self.spec_serialize().len(),
    {
        proof {
            self.lemma_size();
        }
        push_be32(out, self.light_type);
        push_be32_array(out, &self.color);
        push_be32_array(out, &self.position);
        push_be32_array(out, &self.direction);
        push_be32(out, self.brightness);
        push_be32(out, self.spot_cutoff);
        push_be32(out, self.unknown0);
        out.push(self.unknown1);
        push_be32(out, self.unknown2);
        push_be32(out, self.falloff_type);
        push_be32(out, self.unknown3);
        proof {
            assert(final(out)@ =~= old(out)@ + self.spec_serialize());
        }
        65
    }

    /// The exact number of bytes [`Self::write_to`] emits.
    pub fn size(&self) -> (n: usize)
        requires
            self.wf(),
        ensures
            n == self.spec_serialize().len(),
    {
        proof {
            self.lemma_size();
        }
        65
    }
}

/// Concatenated serialization of a sequence of light layers.
pub open spec fn spec_light_array(s: Seq<LightLayer>) -> Seq<u8>
    decreases s.len(),
{
    if s.len() == 0 {
        Seq::empty()
    } else {
        spec_light_array(s.drop_last()) + s.last().spec_serialize()
    }
}

pub proof fn lemma_light_array_len(s: Seq<LightLayer>)
    requires
        forall|i: int| 0 <= i < s.len() ==> (#[trigger] s[i]).wf(),
    ensures
        spec_light_array(s).len() == 65 * s.len(),
    decreases s.len(),
{
    if s.len() > 0 {
        assert forall|i: int| 0 <= i < s.drop_last().len() implies (#[trigger] s.drop_last()[i]).wf() by {
            assert(s.drop_last()[i] == s[i]);
        }
        lemma_light_array_len(s.drop_last());
        assert(s.last() == s[s.len() - 1]);
        s.last().lemma_size();
    }
}

/// Whether a lights section decodes at `pos`: the magic word holds its
/// constant, the declared layers fit, and the trailing alignment padding
/// is zero bytes.
pub open spec fn spec_lights_parses(data: Seq<u8>, pos: int) -> bool {
    let len = data.len() as int;
    &&& pos + 8 <= len
    &&& spec_u32_at(data, pos) == LIGHTS_MAGIC
    &&& {
        let n = spec_u32_at(data, pos + 4) as int;
        let pend = pos + 8 + 65 * n;
        let pad = pad32_len(8 + 65 * n);
        &&& pend + pad <= len
        &&& data.subrange(pend, pend + pad) == zero_bytes(pad)
    }
}

/// The lights section of a room: a magic word, a derived light count, the
/// light layers, and zero padding to the next 32-byte boundary.
#[derive(Debug, Clone, PartialEq)]
pub struct Lights {
    pub light_layers: Vec<LightLayer>,
}

impl Lights {
    /// Structural validity: every layer is valid and the record fits the
    /// format's 32-bit size fields.
    pub open spec fn wf(self) -> bool {
        &&& (forall|i: int|
            0 <= i < self.light_layers@.len() ==> (#[trigger] self.light_layers@[i]).wf())
        &&& self.spec_size() <= 0xFFFF_FF00
    }

    /// The exact serialized length: header, layers, and the re-derived
    /// padding to the next 32-byte boundary.
    pub open spec fn spec_size(self) -> int {
        8 + 65 * (self.light_layers@.len() as int) + pad32_len(8 + 65 * (self.light_layers@.len() as int))
    }

    /// Exact serialized form: the count and the padding length are both
    /// re-derived from the live layer list.
    pub open spec fn spec_serialize(self) -> Seq<u8> {
        spec_be32(LIGHTS_MAGIC) + spec_be32(self.light_layers@.len() as u32) + spec_light_array(
            self.light_layers@,
        ) + zero_bytes(pad32_len(8 + 65 * (self.light_layers@.len() as int)))
    }

    /// The serialized form is exactly as long as the measured size says.
    pub proof fn lemma_size(self)
        requires
            forall|i: int|
                0 <= i < self.light_layers@.len() ==> (#[trigger] self.light_layers@[i]).wf(),
        ensures
            self.spec_serialize().len() == self.spec_size(),
    {
        lemma_light_array_len(self.light_layers@);
    }

    #[verifier::rlimit(100)]
    #[verifier::spinoff_prover]
    pub fn read_from(v: &mut BinaryView) -> (r: Result<Lights, FormatError>)
        requires
            old(v).wf(),
            old(v).data().len() <= 0xFFFF_FF00,
        ensures
            final(v).wf(),
            final(v).data() == old(v).data(),
            r matches Ok(l) ==> {
                &&& l.wf()
                &&& final(v).position() == old(v).position() + l.spec_size()
                &&& l.spec_serialize() == old(v).data().subrange(
                    old(v).position(),
                    final(v).position(),
                )
            },
            r is Ok <==> spec_lights_parses(old(v).data(), old(v).position()),
            r matches Err(e) ==> e == FormatError::Truncated || e == FormatError::UnexpectedMagic
                || e == FormatError::NonzeroPadding,
    {
        let ghost p0 = v.position();
        let magic = v.read_u32()?;
        if magic != LIGHTS_MAGIC {
            return Err(FormatError::UnexpectedMagic);
        }
        let lights_count = v.read_u32()?;
        let n = lights_count as usize;
        let mut light_layers: Vec<LightLayer> = Vec::new();
        let ghost lstart = v.position();
        let mut i: usize = 0;
        while i < n
            invariant
                old(v).wf(),
                v.wf(),
                v.data() == old(v).data(),
                old(v).remaining() >= 8,
                spec_u32_at(old(v).data(), old(v).position()) == LIGHTS_MAGIC,
                n == spec_u32_at(old(v).data(), old(v).position() + 4),
                lstart == old(v).position() + 8,
                0 <= lstart <= v.position(),
                i <= n,
                light_layers@.len() == i,
                v.position() == lstart + 65 * i,
                spec_light_array(light_layers@) == old(v).data().subrange(lstart, v.position()),
                forall|j: int| 0 <= j < i ==> (#[trigger] light_layers@[j]).wf(),
            decreases n - i,
        {
            let ghost pos0 = v.position();
            let ghost a0 = light_layers@;
            let l = match LightLayer::read_from(v) {
                Ok(l) => l,
                Err(e) => {
                    return Err(e);
                },
            };
            light_layers.push(l);
            proof {
                assert(light_layers@ =~= a0.push(l));
                assert(light_layers@.drop_last() =~= a0);
                assert(light_layers@.last() == l);
                assert(spec_light_array(light_layers@) == spec_light_array(a0)
                    + l.spec_serialize());
                crate::bytes::lemma_subrange_join(old(v).data(), lstart, pos0, v.position());
            }
            i = i + 1;
        }
        let body_len = 8 + 65 * n;
        let pad = pad32_amount(body_len);
        let ghost pstart = v.position();
        match v.read_zeros(pad) {
            Ok(u) => u,
            Err(e) => {
                return Err(e);
            },
        };
        let l = Lights { light_layers };
        proof {
            l.lemma_size();
            crate::bytes::lemma_subrange_join(old(v).data(), p0, lstart, pstart);
            crate::bytes::lemma_subrange_join(old(v).data(), p0, pstart, v.position());
            assert(spec_be32(LIGHTS_MAGIC) + spec_be32(lights_count) =~= old(v).data().subrange(
                p0,
                lstart,
            ));
            assert(l.light_layers@.len() as u32 == lights_count);
            assert(l.spec_serialize() == old(v).data().subrange(p0, v.position()));
            assert(l.spec_size() == v.position() - p0);
            assert(l.wf());
        }
        Ok(l)
    }

    /// The exact number of bytes [`Self::write_to`] emits.
    pub fn size(&self) -> (n: usize)
        requires
            self.wf(),
        ensures
            n == self.spec_size(),
            n == self.spec_serialize().len(),
    {
        proof {
            self.lemma_size();
        }
        let body_len = 8 + 65 * self.light_layers.len();
        body_len + pad32_amount(body_len)
    }

    #[verifier::rlimit(100)]
    #[verifier::spinoff_prover]
    pub fn write_to(&self, out: &mut Vec<u8>) -> (n: usize)
        requires
            self.wf(),
        ensures
            final(out)@ == old(out)@ + self.spec_serialize(),
            n == self.spec_serialize().len(),
    {
        proof {
            self.lemma_size();
        }
        let n = self.size();
        let ghost base = out@;
        push_be32(out, LIGHTS_MAGIC);
        push_be32(out, self.light_layers.len() as u32);
        let ghost mut acc = spec_be32(LIGHTS_MAGIC) + spec_be32(self.light_layers@.len() as u32);
        proof {
            assert(out@ == base + acc);
        }
        let mut i: usize = 0;
        while i < self.light_layers.len()
            invariant
                self.wf(),
                i <= self.light_layers@.len(),
                out@ == base + acc + spec_light_array(self.light_layers@.take(i as int)),
            decreases self.light_layers@.len() - i,
        {
            let l = &self.light_layers[i];
            l.write_to(out);
            proof {
                assert(self.light_layers@.take(i + 1).drop_last() =~= self.light_layers@.take(
                    i as int,
                ));
                assert(self.light_layers@.take(i + 1).last() == self.light_layers@[i as int]);
                assert(spec_light_array(self.light_layers@.take(i + 1)) == spec_light_array(
                    self.light_layers@.take(i as int),
                ) + self.light_layers@[i as int].spec_serialize());
                assert(out@ =~= base + acc + spec_light_array(
                    self.light_layers@.take(i + 1),
                ));
            }
            i = i + 1;
        }
        let body_len = 8 + 65 * self.light_layers.len();
        let pad = pad32_amount(body_len);
        push_zeros(out, pad);
        proof {
            assert(self.light_layers@.take(self.light_layers@.len() as int)
                =~= self.light_layers@);
            assert(out@ =~= base + self.spec_serialize());
        }
        n
    }
}


/// A read-only view that is either borrowed from an already-promoted
/// section or freshly parsed and owned; callers read through [`Self::get`]
/// without caring which.
pub enum MaybeOwned<'a, T> {
    Borrowed(&'a T),
    Owned(T),
}

impl<'a, T> MaybeOwned<'a, T> {
    /// The viewed value, whoever owns it.
    pub open spec fn value(self) -> T {
        match self {
            MaybeOwned::Borrowed(t) => *t,
            MaybeOwned::Owned(t) => t,
        }
    }

    pub fn get(&self) -> (r: &T)
        ensures
            *r == self.value(),
    {
        match self {
            MaybeOwned::Borrowed(t) => t,
            MaybeOwned::Owned(t) => t,
        }
    }
}

/// One region of a room container.  A section starts as an opaque byte
/// range and is promoted, on first typed access, to one of a closed set of
/// typed kinds; it never reverts, and never changes kind.
#[derive(Debug, Clone, PartialEq)]
pub enum MreaSection {
    Unknown(Vec<u8>),
    Scly(Scly),
    Collision(AreaCollision),
    Materials(CmdlMaterialSet),
    Lights(Lights),
}

impl MreaSection {
    /// Structural validity of whatever state the section is in.
    pub open spec fn wf(self) -> bool {
        match self {
            MreaSection::Unknown(b) => b@.len() <= 0xFFFF_FF00,
            MreaSection::Scly(s) => s.wf(),
            MreaSection::Collision(c) => c.wf(),
            MreaSection::Materials(m) => m.wf(),
            MreaSection::Lights(l) => l.wf(),
        }
    }

    /// The serialized length of the section's *current* state: the raw
    /// length while unpromoted, the typed measure afterwards.  A promoted
    /// section may measure differently from the bytes it was read from.
    pub open spec fn spec_size(self) -> int {
        match self {
            MreaSection::Unknown(b) => b@.len() as int,
            MreaSection::Scly(s) => s.spec_size(),
            MreaSection::Collision(c) => c.spec_size(),
            MreaSection::Materials(m) => m.spec_size(),
            MreaSection::Lights(l) => l.spec_size(),
        }
    }

    /// The serialized form of the section's current state.
    pub open spec fn spec_serialize(self) -> Seq<u8> {
        match self {
            MreaSection::Unknown(b) => b@,
            MreaSection::Scly(s) => s.spec_serialize(),
            MreaSection::Collision(c) => c.spec_serialize(),
            MreaSection::Materials(m) => m.spec_serialize(),
            MreaSection::Lights(l) => l.spec_serialize(),
        }
    }

    /// The serialized form is exactly as long as the measured size says.
    pub proof fn lemma_size(self)
        requires
            self.wf(),
        ensures
            self.spec_serialize().len() == self.spec_size(),
            self.spec_size() >= 0,
    {
        match self {
            MreaSection::Unknown(b) => {},
            MreaSection::Scly(s) => s.lemma_size(),
            MreaSection::Collision(c) => c.lemma_size(),
            MreaSection::Materials(m) => m.lemma_size(),
            MreaSection::Lights(l) => l.lemma_size(),
        }
    }

    /// Read one section as an opaque byte range of the given stored size;
    /// typed promotion happens later, on first typed access.
    pub fn read_from(v: &mut BinaryView, size: u32) -> (r: Result<MreaSection, FormatError>)
        requires
            old(v).wf(),
            old(v).data().len() <= 0xFFFF_FF00,
        ensures
            final(v).wf(),
            final(v).data() == old(v).data(),
            r matches Ok(s) ==> {
                &&& s is Unknown
                &&& s.wf()
                &&& s.spec_size() == size
                &&& final(v).position() == old(v).position() + size
                &&& s.spec_serialize() == old(v).data().subrange(
                    old(v).position(),
                    final(v).position(),
                )
            },
            r matches Err(e) ==> e == FormatError::Truncated && old(v).remaining() < size,
            old(v).remaining() >= size ==> r is Ok,
    {
        let b = v.take_vec(size as usize)?;
        Ok(MreaSection::Unknown(b))
    }

    /// The exact number of bytes [`Self::write_to`] emits, measured from
    /// the current state.
    pub fn size(&self) -> (n: usize)
        requires
            self.wf(),
        ensures
            n == self.spec_size(),
            n == self.spec_serialize().len(),
    {
        proof {
            self.lemma_size();
        }
        match self {
            MreaSection::Unknown(b) => b.len(),
            MreaSection::Scly(s) => s.size(),
            MreaSection::Collision(c) => c.size(),
            MreaSection::Materials(m) => m.size(),
            MreaSection::Lights(l) => l.size(),
        }
    }

    pub fn write_to(&self, out: &mut Vec<u8>) -> (n: usize)
        requires
            self.wf(),
        ensures
            final(out)@ == old(out)@ + self.spec_serialize(),
            n == self.spec_serialize().len(),
    {
        proof {
            self.lemma_size();
        }
        match self {
            MreaSection::Unknown(b) => {
                push_bytes(out, b.as_slice());
                b.len()
            },
            MreaSection::Scly(s) => s.write_to(out),
            MreaSection::Collision(c) => c.write_to(out),
            MreaSection::Materials(m) => m.write_to(out),
            MreaSection::Lights(l) => l.write_to(out),
        }
    }

    /// Promote this section to the scripts kind.  Promoting an
    /// already-promoted section of the same kind leaves it untouched;
    /// asking a section that already holds a different typed kind is a
    /// contract violation and fails without touching it.
    pub fn convert_to_scly(&mut self) -> (r: Result<(), FormatError>)
        requires
            old(self).wf(),
        ensures
            final(self).wf(),
            r is Ok <==> (*final(self)) is Scly,
            (*old(self)) is Scly ==> r is Ok && *final(self) == *old(self),
            r is Err ==> *final(self) == *old(self),
            (*old(self)) matches MreaSection::Unknown(b) ==> ((*final(self)) matches MreaSection::Scly(s)
                ==> s.spec_serialize() == b@.subrange(0, s.spec_size())),
            !((*old(self)) is Unknown || (*old(self)) is Scly) ==> r == Err::<
                (),
                FormatError,
            >(FormatError::WrongSectionKind),
    {
        match self {
            MreaSection::Unknown(b) => {
                let mut view = BinaryView::new(b.as_slice());
                match Scly::read_from(&mut view) {
                    Ok(s) => {
                        proof {
                            s.lemma_size();
                        }
                        *self = MreaSection::Scly(s);
                        Ok(())
                    },
                    Err(e) => Err(e),
                }
            },
            MreaSection::Scly(_) => Ok(()),
            _ => Err(FormatError::WrongSectionKind),
        }
    }

    /// Promote this section to the collision kind; see
    /// [`Self::convert_to_scly`] for the promotion contract.
    pub fn convert_to_collision(&mut self) -> (r: Result<(), FormatError>)
        requires
            old(self).wf(),
        ensures
            final(self).wf(),
            r is Ok <==> (*final(self)) is Collision,
            (*old(self)) is Collision ==> r is Ok && *final(self) == *old(self),
            r is Err ==> *final(self) == *old(self),
            (*old(self)) matches MreaSection::Unknown(b) ==> ((*final(self)) matches MreaSection::Collision(c)
                ==> c.spec_serialize() == b@.subrange(0, c.spec_size())),
            (*old(self)) matches MreaSection::Unknown(b) ==> (r is Ok
                <==> crate::collision::spec_area_collision_parses(b@, 0)),
            !((*old(self)) is Unknown || (*old(self)) is Collision) ==> r == Err::<
                (),
                FormatError,
            >(FormatError::WrongSectionKind),
    {
        match self {
            MreaSection::Unknown(b) => {
                let mut view = BinaryView::new(b.as_slice());
                match AreaCollision::read_from(&mut view) {
                    Ok(c) => {
                        proof {
                            c.lemma_size();
                        }
                        *self = MreaSection::Collision(c);
                        Ok(())
                    },
                    Err(e) => Err(e),
                }
            },
            MreaSection::Collision(_) => Ok(()),
            _ => Err(FormatError::WrongSectionKind),
        }
    }

    /// Promote this section to the geometry-material-set kind; see
    /// [`Self::convert_to_scly`] for the promotion contract.
    pub fn convert_to_materials(&mut self) -> (r: Result<(), FormatError>)
        requires
            old(self).wf(),
        ensures
            final(self).wf(),
            r is Ok <==> (*final(self)) is Materials,
            (*old(self)) is Materials ==> r is Ok && *final(self) == *old(self),
            r is Err ==> *final(self) == *old(self),
            (*old(self)) matches MreaSection::Unknown(b) ==> ((*final(self)) matches MreaSection::Materials(m)
                ==> m.spec_serialize() == b@.subrange(0, m.spec_size())),
            !((*old(self)) is Unknown || (*old(self)) is Materials) ==> r == Err::<
                (),
                FormatError,
            >(FormatError::WrongSectionKind),
    {
        match self {
            MreaSection::Unknown(b) => {
                let mut view = BinaryView::new(b.as_slice());
                match CmdlMaterialSet::read_from(&mut view) {
                    Ok(m) => {
                        proof {
                            m.lemma_size();
                        }
                        *self = MreaSection::Materials(m);
                        Ok(())
                    },
                    Err(e) => Err(e),
                }
            },
            MreaSection::Materials(_) => Ok(()),
            _ => Err(FormatError::WrongSectionKind),
        }
    }

    /// Promote this section to the lights kind; see
    /// [`Self::convert_to_scly`] for the promotion contract.
    pub fn convert_to_lights(&mut self) -> (r: Result<(), FormatError>)
        requires
            old(self).wf(),
        ensures
            final(self).wf(),
            r is Ok <==> (*final(self)) is Lights,
            (*old(self)) is Lights ==> r is Ok && *final(self) == *old(self),
            r is Err ==> *final(self) == *old(self),
            (*old(self)) matches MreaSection::Unknown(b) ==> ((*final(self)) matches MreaSection::Lights(l)
                ==> l.spec_serialize() == b@.subrange(0, l.spec_size())),
            (*old(self)) matches MreaSection::Unknown(b) ==> (r is Ok
                <==> spec_lights_parses(b@, 0)),
            !((*old(self)) is Unknown || (*old(self)) is Lights) ==> r == Err::<
                (),
                FormatError,
            >(FormatError::WrongSectionKind),
    {
        match self {
            MreaSection::Unknown(b) => {
                let mut view = BinaryView::new(b.as_slice());
                match Lights::read_from(&mut view) {
                    Ok(l) => {
                        proof {
                            l.lemma_size();
                        }
                        *self = MreaSection::Lights(l);
                        Ok(())
                    },
                    Err(e) => Err(e),
                }
            },
            MreaSection::Lights(_) => Ok(()),
            _ => Err(FormatError::WrongSectionKind),
        }
    }
}



/// The strict ordering the eight declared section indices of a room must
/// satisfy, in the domain's fixed order: geometry, octree, scripts,
/// collision, the reserved section, lights, visibility tree, paths.
pub open spec fn spec_indices_ordered(
    geometry: u32,
    octree: u32,
    scripts: u32,
    collision: u32,
    unknown: u32,
    lights: u32,
    visibility: u32,
    paths: u32,
) -> bool {
    &&& geometry < octree
    &&& octree < scripts
    &&& scripts < collision
    &&& collision < unknown
    &&& unknown < lights
    &&& lights < visibility
    &&& visibility < paths
}

/// Whether the declared section-index words of a serialized room header
/// satisfy the required strict ordering.
pub open spec fn spec_mrea_header_ordered(bytes: Seq<u8>) -> bool {
    spec_indices_ordered(
        spec_u32_at(bytes, 64),
        spec_u32_at(bytes, 92),
        spec_u32_at(bytes, 68),
        spec_u32_at(bytes, 72),
        spec_u32_at(bytes, 76),
        spec_u32_at(bytes, 80),
        spec_u32_at(bytes, 84),
        spec_u32_at(bytes, 88),
    )
}

/// The per-section size table of a room: one word per section, re-derived
/// from each section's current measure.
pub open spec fn spec_section_table(s: Seq<MreaSection>) -> Seq<u8>
    decreases s.len(),
{
    if s.len() == 0 {
        Seq::empty()
    } else {
        spec_section_table(s.drop_last()) + spec_be32(s.last().spec_size() as u32)
    }
}

/// The sections of a room, serialized in order, each in its current state.
pub open spec fn spec_section_array(s: Seq<MreaSection>) -> Seq<u8>
    decreases s.len(),
{
    if s.len() == 0 {
        Seq::empty()
    } else {
        spec_section_array(s.drop_last()) + s.last().spec_serialize()
    }
}

/// Total measured size of a room's sections in their current states.
pub open spec fn spec_section_total(s: Seq<MreaSection>) -> int
    decreases s.len(),
{
    if s.len() == 0 {
        0
    } else {
        spec_section_total(s.drop_last()) + s.last().spec_size()
    }
}

pub proof fn lemma_section_arrays(s: Seq<MreaSection>)
    requires
        forall|i: int| 0 <= i < s.len() ==> (#[trigger] s[i]).wf(),
    ensures
        spec_section_table(s).len() == 4 * s.len(),
        spec_section_array(s).len() == spec_section_total(s),
        spec_section_total(s) >= 0,
    decreases s.len(),
{
    if s.len() > 0 {
        assert forall|i: int| 0 <= i < s.drop_last().len() implies (#[trigger] s.drop_last()[i]).wf() by {
            assert(s.drop_last()[i] == s[i]);
        }
        lemma_section_arrays(s.drop_last());
        assert(s.last() == s[s.len() - 1]);
        s.last().lemma_size();
    }
}

/// A prefix of the section list never measures more than the whole.
pub proof fn lemma_section_total_take_le(s: Seq<MreaSection>, i: int)
    requires
        0 <= i <= s.len(),
        forall|j: int| 0 <= j < s.len() ==> (#[trigger] s[j]).wf(),
    ensures
        spec_section_total(s.take(i)) <= spec_section_total(s),
    decreases s.len() - i,
{
    if i < s.len() {
        assert(s.take(i + 1).drop_last() =~= s.take(i));
        assert(s.take(i + 1).last() == s[i]);
        assert(spec_section_total(s.take(i + 1)) == spec_section_total(s.take(i))
            + s[i].spec_size());
        s[i].lemma_size();
        lemma_section_total_take_le(s, i + 1);
    } else {
        assert(s.take(i) =~= s);
    }
}

/// A room-level container: fixed header words, eight declared section
/// indices that must be strictly ordered, and the ordered section list.
/// The section count, the per-section size table, and both padding runs
/// are re-derived from the live sections on every write, so a section
/// grown or shrunk by a patch re-serializes consistently.
#[derive(Debug, Clone, PartialEq)]
pub struct Mrea {
    /// Twelve 32-bit floats of the area transform, carried as raw bits.
    pub area_transform: Vec<u32>,
    pub world_model_count: u32,
    pub world_geometry_section_idx: u32,
    pub scly_section_idx: u32,
    pub collision_section_idx: u32,
    pub unknown_section_idx: u32,
    pub lights_section_idx: u32,
    pub visibility_tree_section_idx: u32,
    pub path_section_idx: u32,
    pub area_octree_section_idx: u32,
    pub sections: Vec<MreaSection>,
}

impl Mrea {
    /// The declared section indices satisfy the required strict ordering.
    pub open spec fn section_indices_ordered(self) -> bool {
        spec_indices_ordered(
            self.world_geometry_section_idx,
            self.area_octree_section_idx,
            self.scly_section_idx,
            self.collision_section_idx,
            self.unknown_section_idx,
            self.lights_section_idx,
            self.visibility_tree_section_idx,
            self.path_section_idx,
        )
    }

    /// Structural validity: the transform holds twelve words, the declared
    /// indices are strictly ordered and inside the section list, and every
    /// section is valid in its current state.
    pub open spec fn wf(self) -> bool {
        &&& self.area_transform@.len() == 12
        &&& self.section_indices_ordered()
        &&& (self.path_section_idx as int) < self.sections@.len()
        &&& (forall|i: int| 0 <= i < self.sections@.len() ==> (#[trigger] self.sections@[i]).wf())
    }

    /// Every section still holds the raw bytes it was constructed from.
    pub open spec fn all_raw(self) -> bool {
        forall|i: int| 0 <= i < self.sections@.len() ==> (#[trigger] self.sections@[i]) is Unknown
    }

    /// Byte offset where the header and size table end.
    pub open spec fn spec_table_end(self) -> int {
        96 + 4 * (self.sections@.len() as int)
    }

    /// The exact serialized length: header and size table, padding to a
    /// 32-byte boundary, the sections in their current states, and final
    /// padding to a 32-byte boundary.
    pub open spec fn spec_size(self) -> int {
        let te = self.spec_table_end();
        let p1 = pad32_len(te);
        let total = spec_section_total(self.sections@);
        te + p1 + total + pad32_len(te + p1 + total)
    }

    /// The header and re-derived size table.
    pub open spec fn spec_header(self) -> Seq<u8> {
        spec_be32(MREA_MAGIC) + spec_be32(MREA_VERSION) + spec_be32_array(self.area_transform@)
            + spec_be32(self.world_model_count) + spec_be32(self.sections@.len() as u32)
            + spec_be32(self.world_geometry_section_idx) + spec_be32(self.scly_section_idx)
            + spec_be32(self.collision_section_idx) + spec_be32(self.unknown_section_idx)
            + spec_be32(self.lights_section_idx) + spec_be32(self.visibility_tree_section_idx)
            + spec_be32(self.path_section_idx) + spec_be32(self.area_octree_section_idx)
            + spec_section_table(self.sections@)
    }

    /// Exact serialized form of the whole container.
    pub open spec fn spec_serialize(self) -> Seq<u8> {
        let te = self.spec_table_end();
        let p1 = pad32_len(te);
        let total = spec_section_total(self.sections@);
        self.spec_header() + zero_bytes(p1) + spec_section_array(self.sections@) + zero_bytes(
            pad32_len(te + p1 + total),
        )
    }

    /// The serialized form is exactly as long as the measured size says.
    #[verifier::rlimit(100)]
    #[verifier::spinoff_prover]
    pub proof fn lemma_size(self)
        requires
            self.wf(),
        ensures
            self.spec_serialize().len() == self.spec_size(),
            spec_section_total(self.sections@) >= 0,
    {
        crate::bytes::lemma_be32_array_len(self.area_transform@);
        lemma_section_arrays(self.sections@);
    }

    /// Decode a whole room container from its byte image.  The declared
    /// section indices are validated, ordering first, before any section
    /// bytes are taken; every section starts in the raw state, so an
    /// immediately re-serialized container reproduces the input exactly,
    /// as the contract states.
    #[verifier::rlimit(100)]
    #[verifier::spinoff_prover]
    pub fn read_from(bytes: &[u8]) -> (r: Result<Mrea, FormatError>)
        requires
            bytes@.len() <= 0xFFFF_FF00,
        ensures
            r matches Ok(m) ==> {
                &&& m.wf()
                &&& m.all_raw()
                &&& m.spec_size() == bytes@.len()
                &&& m.spec_serialize() == bytes@
            },
            (bytes@.len() >= 96 && spec_u32_at(bytes@, 0) == MREA_MAGIC && spec_u32_at(bytes@, 4)
                == MREA_VERSION && !spec_mrea_header_ordered(bytes@)) ==> r == Err::<
                Mrea,
                FormatError,
            >(FormatError::SectionIndexOrdering),
            r == Err::<Mrea, FormatError>(FormatError::SectionIndexOrdering)
                ==> !spec_mrea_header_ordered(bytes@),
            (bytes@.len() >= 4 && spec_u32_at(bytes@, 0) != MREA_MAGIC) ==> r == Err::<
                Mrea,
                FormatError,
            >(FormatError::UnexpectedMagic),
    {
        let mut v = BinaryView::new(bytes);
        let magic = match v.read_u32() {
            Ok(x) => x,
            Err(e) => {
                return Err(e);
            },
        };
        if magic != MREA_MAGIC {
            return Err(FormatError::UnexpectedMagic);
        }
        let version = match v.read_u32() {
            Ok(x) => x,
            Err(e) => {
                return Err(e);
            },
        };
        if version != MREA_VERSION {
            return Err(FormatError::UnexpectedVersion);
        }
        let area_transform = match read_be32_array(&mut v, 12) {
            Ok(x) => x,
            Err(e) => {
                return Err(e);
            },
        };
        let world_model_count = match v.read_u32() {
            Ok(x) => x,
            Err(e) => {
                return Err(e);
            },
        };
        let sections_count = match v.read_u32() {
            Ok(x) => x,
            Err(e) => {
                return Err(e);
            },
        };
        let world_geometry_section_idx = match v.read_u32() {
            Ok(x) => x,
            Err(e) => {
                return Err(e);
            },
        };
        let scly_section_idx = match v.read_u32() {
            Ok(x) => x,
            Err(e) => {
                return Err(e);
            },
        };
        let collision_section_idx = match v.read_u32() {
            Ok(x) => x,
            Err(e) => {
                return Err(e);
            },
        };
        let unknown_section_idx = match v.read_u32() {
            Ok(x) => x,
            Err(e) => {
                return Err(e);
            },
        };
        let lights_section_idx = match v.read_u32() {
            Ok(x) => x,
            Err(e) => {
                return Err(e);
            },
        };
        let visibility_tree_section_idx = match v.read_u32() {
            Ok(x) => x,
            Err(e) => {
                return Err(e);
            },
        };
        let path_section_idx = match v.read_u32() {
            Ok(x) => x,
            Err(e) => {
                return Err(e);
            },
        };
        let area_octree_section_idx = match v.read_u32() {
            Ok(x) => x,
            Err(e) => {
                return Err(e);
            },
        };
        if !(world_geometry_section_idx < area_octree_section_idx && area_octree_section_idx
            < scly_section_idx && scly_section_idx < collision_section_idx
            && collision_section_idx < unknown_section_idx && unknown_section_idx
            < lights_section_idx && lights_section_idx < visibility_tree_section_idx
            && visibility_tree_section_idx < path_section_idx) {
            return Err(FormatError::SectionIndexOrdering);
        }
        if path_section_idx >= sections_count {
            return Err(FormatError::SectionIndexRange);
        }
        let ghost hdr = spec_be32(MREA_MAGIC) + spec_be32(MREA_VERSION) + spec_be32_array(
            area_transform@,
        ) + spec_be32(world_model_count) + spec_be32(sections_count) + spec_be32(
            world_geometry_section_idx,
        ) + spec_be32(scly_section_idx) + spec_be32(collision_section_idx) + spec_be32(
            unknown_section_idx,
        ) + spec_be32(lights_section_idx) + spec_be32(visibility_tree_section_idx) + spec_be32(
            path_section_idx,
        ) + spec_be32(area_octree_section_idx);
        proof {
            assert(hdr =~= bytes@.subrange(0, 96));
        }
        let section_sizes = match read_be32_array(&mut v, sections_count as usize) {
            Ok(x) => x,
            Err(e) => {
                return Err(e);
            },
        };
        let table_end = v.position_exec();
        let pad1 = pad32_amount(table_end);
        match v.read_zeros(pad1) {
            Ok(u) => u,
            Err(e) => {
                return Err(e);
            },
        };
        let n = sections_count as usize;
        let mut sections: Vec<MreaSection> = Vec::new();
        let ghost sec_start = v.position();
        let mut i: usize = 0;
        while i < n
            invariant
                v.wf(),
                v.data() == bytes@,
                bytes@.len() <= 0xFFFF_FF00,
                bytes@.len() >= 96,
                spec_u32_at(bytes@, 0) == MREA_MAGIC,
                spec_mrea_header_ordered(bytes@),
                0 <= sec_start <= v.position(),
                i <= n,
                n == section_sizes@.len(),
                sections@.len() == i,
                v.position() == sec_start + spec_section_total(sections@),
                spec_section_array(sections@) == bytes@.subrange(sec_start, v.position()),
                spec_section_table(sections@) == spec_be32_array(section_sizes@.take(i as int)),
                forall|j: int| 0 <= j < i ==> (#[trigger] sections@[j]).wf(),
                forall|j: int| 0 <= j < i ==> (#[trigger] sections@[j]) is Unknown,
            decreases n - i,
        {
            let ghost pos0 = v.position();
            let ghost s0 = sections@;
            let size = section_sizes[i];
            let sec = match MreaSection::read_from(&mut v, size) {
                Ok(s) => s,
                Err(e) => {
                    return Err(e);
                },
            };
            sections.push(sec);
            proof {
                assert(sections@ =~= s0.push(sections@.last()));
                assert(sections@.drop_last() =~= s0);
                assert(spec_section_array(sections@) == spec_section_array(s0)
                    + sections@.last().spec_serialize());
                assert(spec_section_total(sections@) == spec_section_total(s0)
                    + sections@.last().spec_size());
                assert(spec_section_table(sections@) == spec_section_table(s0) + spec_be32(
                    sections@.last().spec_size() as u32,
                ));
                crate::bytes::lemma_subrange_join(bytes@, sec_start, pos0, v.position());
                assert(section_sizes@.take(i + 1).drop_last() =~= section_sizes@.take(i as int));
                assert(section_sizes@.take(i + 1).last() == size);
                assert(spec_be32_array(section_sizes@.take(i + 1)) == spec_be32_array(
                    section_sizes@.take(i as int),
                ) + spec_be32(size));
                assert(sections@.last().spec_size() as u32 == size);
            }
            i = i + 1;
        }
        let ghost pad2_start = v.position();
        let sections_end = v.position_exec();
        let pad2 = pad32_amount(sections_end);
        match v.read_zeros(pad2) {
            Ok(u) => u,
            Err(e) => {
                return Err(e);
            },
        };
        if v.remaining_exec() != 0 {
            return Err(FormatError::SizeMismatch);
        }
        let m = Mrea {
            area_transform,
            world_model_count,
            world_geometry_section_idx,
            scly_section_idx,
            collision_section_idx,
            unknown_section_idx,
            lights_section_idx,
            visibility_tree_section_idx,
            path_section_idx,
            area_octree_section_idx,
            sections,
        };
        proof {
            m.lemma_size();
            lemma_section_arrays(m.sections@);
            crate::bytes::lemma_be32_array_len(section_sizes@);
            assert(section_sizes@.take(n as int) =~= section_sizes@);
            assert(m.spec_header() == hdr + spec_section_table(m.sections@));
            assert(hdr + spec_be32_array(section_sizes@) =~= bytes@.subrange(0, table_end as int));
            assert(m.spec_header() == bytes@.subrange(0, table_end as int));
            assert(m.spec_table_end() == table_end);
            crate::bytes::lemma_subrange_join(bytes@, 0, table_end as int, sec_start);
            crate::bytes::lemma_subrange_join(bytes@, 0, sec_start, pad2_start);
            crate::bytes::lemma_subrange_join(bytes@, 0, pad2_start, v.position());
            assert(v.position() == bytes@.len());
            assert(m.spec_serialize() == bytes@.subrange(0, v.position()));
            assert(bytes@.subrange(0, v.position()) =~= bytes@);
            assert(m.wf());
        }
        Ok(m)
    }

    /// The exact number of bytes [`Self::write_to`] emits, measured from
    /// every section's current state.
    pub fn size(&self) -> (n: usize)
        requires
            self.wf(),
            self.spec_size() <= 0xFFFF_FF00,
        ensures
            n == self.spec_size(),
            n == self.spec_serialize().len(),
    {
        proof {
            self.lemma_size();
        }
        let te = 96 + 4 * self.sections.len();
        let p1 = pad32_amount(te);
        let total = self.sections_total_size();
        te + p1 + total + pad32_amount(te + p1 + total)
    }

    /// Total measured size of the sections in their current states.
    fn sections_total_size(&self) -> (n: usize)
        requires
            self.wf(),
            self.spec_size() <= 0xFFFF_FF00,
        ensures
            n == spec_section_total(self.sections@),
    {
        proof {
            self.lemma_size();
        }
        let mut sum: usize = 0;
        let mut i: usize = 0;
        while i < self.sections.len()
            invariant
                self.wf(),
                self.spec_size() <= 0xFFFF_FF00,
                i <= self.sections@.len(),
                sum == spec_section_total(self.sections@.take(i as int)),
            decreases self.sections@.len() - i,
        {
            let k = self.sections[i].size();
            proof {
                assert(self.sections@.take(i + 1).drop_last() =~= self.sections@.take(i as int));
                assert(self.sections@.take(i + 1).last() == self.sections@[i as int]);
                assert(spec_section_total(self.sections@.take(i + 1)) == spec_section_total(
                    self.sections@.take(i as int),
                ) + self.sections@[i as int].spec_size());
                lemma_section_total_take_le(self.sections@, i + 1);
                self.lemma_size();
            }
            sum = sum + k;
            i = i + 1;
        }
        proof {
            assert(self.sections@.take(self.sections@.len() as int) =~= self.sections@);
        }
        sum
    }

    #[verifier::rlimit(100)]
    #[verifier::spinoff_prover]
    pub fn write_to(&self, out: &mut Vec<u8>) -> (n: usize)
        requires
            self.wf(),
            self.spec_size() <= 0xFFFF_FF00,
        ensures
            final(out)@ == old(out)@ + self.spec_serialize(),
            n == self.spec_serialize().len(),
    {
        proof {
            self.lemma_size();
        }
        let n = self.size();
        let ghost base = out@;
        push_be32(out, MREA_MAGIC);
        push_be32(out, MREA_VERSION);
        push_be32_array(out, &self.area_transform);
        push_be32(out, self.world_model_count);
        push_be32(out, self.sections.len() as u32);
        push_be32(out, self.world_geometry_section_idx);
        push_be32(out, self.scly_section_idx);
        push_be32(out, self.collision_section_idx);
        push_be32(out, self.unknown_section_idx);
        push_be32(out, self.lights_section_idx);
        push_be32(out, self.visibility_tree_section_idx);
        push_be32(out, self.path_section_idx);
        push_be32(out, self.area_octree_section_idx);
        let ghost mut acc = spec_be32(MREA_MAGIC) + spec_be32(MREA_VERSION) + spec_be32_array(
            self.area_transform@,
        ) + spec_be32(self.world_model_count) + spec_be32(self.sections@.len() as u32) + spec_be32(
            self.world_geometry_section_idx,
        ) + spec_be32(self.scly_section_idx) + spec_be32(self.collision_section_idx) + spec_be32(
            self.unknown_section_idx,
        ) + spec_be32(self.lights_section_idx) + spec_be32(self.visibility_tree_section_idx)
            + spec_be32(self.path_section_idx) + spec_be32(self.area_octree_section_idx);
        proof {
            assert(out@ == base + acc);
        }
        let mut i: usize = 0;
        while i < self.sections.len()
            invariant
                self.wf(),
                self.spec_size() <= 0xFFFF_FF00,
                i <= self.sections@.len(),
                out@ == base + acc + spec_section_table(self.sections@.take(i as int)),
            decreases self.sections@.len() - i,
        {
            proof {
                lemma_section_total_take_le(self.sections@, i + 1);
                assert(self.sections@.take(i + 1).drop_last() =~= self.sections@.take(i as int));
                assert(self.sections@.take(i + 1).last() == self.sections@[i as int]);
                assert(spec_section_total(self.sections@.take(i + 1)) == spec_section_total(
                    self.sections@.take(i as int),
                ) + self.sections@[i as int].spec_size());
                self.lemma_size();
            }
            let k = self.sections[i].size();
            push_be32(out, k as u32);
            proof {
                assert(spec_section_table(self.sections@.take(i + 1)) == spec_section_table(
                    self.sections@.take(i as int),
                ) + spec_be32(self.sections@[i as int].spec_size() as u32));
                assert(out@ =~= base + acc + spec_section_table(self.sections@.take(i + 1)));
            }
            i = i + 1;
        }
        proof {
            assert(self.sections@.take(self.sections@.len() as int) =~= self.sections@);
            acc = acc + spec_section_table(self.sections@);
            assert(out@ == base + acc);
            assert(acc =~= self.spec_header());
        }
        let te = 96 + 4 * self.sections.len();
        let p1 = pad32_amount(te);
        push_zeros(out, p1);
        proof {
            acc = acc + zero_bytes(p1 as int);
            assert(out@ == base + acc);
        }
        let mut i2: usize = 0;
        while i2 < self.sections.len()
            invariant
                self.wf(),
                self.spec_size() <= 0xFFFF_FF00,
                i2 <= self.sections@.len(),
                out@ == base + acc + spec_section_array(self.sections@.take(i2 as int)),
            decreases self.sections@.len() - i2,
        {
            let s = &self.sections[i2];
            s.write_to(out);
            proof {
                assert(self.sections@.take(i2 + 1).drop_last() =~= self.sections@.take(
                    i2 as int,
                ));
                assert(self.sections@.take(i2 + 1).last() == self.sections@[i2 as int]);
                assert(spec_section_array(self.sections@.take(i2 + 1)) == spec_section_array(
                    self.sections@.take(i2 as int),
                ) + self.sections@[i2 as int].spec_serialize());
                assert(out@ =~= base + acc + spec_section_array(self.sections@.take(i2 + 1)));
            }
            i2 = i2 + 1;
        }
        let total = self.sections_total_size();
        let p2 = pad32_amount(te + p1 + total);
        push_zeros(out, p2);
        proof {
            assert(self.sections@.take(self.sections@.len() as int) =~= self.sections@);
            assert(out@ == base + acc + spec_section_array(self.sections@) + zero_bytes(
                p2 as int,
            ));
            assert(acc + spec_section_array(self.sections@) + zero_bytes(p2 as int)
                =~= self.spec_serialize());
            assert(out@ =~= base + self.spec_serialize());
        }
        n
    }

    /// Serialize the whole container, checking at run time that it still
    /// fits the format's 32-bit size fields.
    /// Serialize the whole container, checking at run time that it still
    /// fits the format's 32-bit size fields: serialization succeeds exactly
    /// when the measured size does.
    pub fn to_bytes(&self) -> (r: Result<Vec<u8>, FormatError>)
        requires
            self.wf(),
        ensures
            r is Ok <==> self.spec_size() <= 0xFFFF_FF00,
            r matches Ok(b) ==> b@ == self.spec_serialize(),
            r matches Err(e) ==> e == FormatError::OversizedRecord,
    {
        proof {
            self.lemma_size();
        }
        if self.sections.len() > 0x3FFF_FFC0 {
            proof {
                assert(self.spec_size() > 0xFFFF_FF00);
            }
            return Err(FormatError::OversizedRecord);
        }
        let mut total: u64 = 0;
        let mut i: usize = 0;
        while i < self.sections.len()
            invariant
                self.wf(),
                i <= self.sections@.len(),
                total == spec_section_total(self.sections@.take(i as int)),
                total <= 0xFFFF_FF00,
            decreases self.sections@.len() - i,
        {
            proof {
                self.sections@[i as int].lemma_size();
            }
            let k = self.sections[i].size();
            proof {
                assert(self.sections@.take(i + 1).drop_last() =~= self.sections@.take(i as int));
                assert(self.sections@.take(i + 1).last() == self.sections@[i as int]);
                assert(spec_section_total(self.sections@.take(i + 1)) == spec_section_total(
                    self.sections@.take(i as int),
                ) + self.sections@[i as int].spec_size());
            }
            if (k as u64) > 0xFFFF_FF00 - total {
                proof {
                    lemma_section_total_take_le(self.sections@, i + 1);
                    self.lemma_size();
                    assert(self.spec_size() > 0xFFFF_FF00);
                }
                return Err(FormatError::OversizedRecord);
            }
            total = total + (k as u64);
            i = i + 1;
        }
        proof {
            assert(self.sections@.take(self.sections@.len() as int) =~= self.sections@);
        }
        let te: usize = 96 + 4 * self.sections.len();
        let p1 = pad32_amount(te);
        let before_final_pad: u64 = (te as u64) + (p1 as u64) + total;
        let rem = before_final_pad % 32;
        let p2: u64 = if rem == 0 {
            0
        } else {
            32 - rem
        };
        proof {
            assert(p2 == pad32_len(te + p1 + total));
        }
        let full = before_final_pad + p2;
        proof {
            assert(full == self.spec_size());
        }
        if full > 0xFFFF_FF00 {
            return Err(FormatError::OversizedRecord);
        }
        let mut out: Vec<u8> = Vec::new();
        self.write_to(&mut out);
        Ok(out)
    }
}

/// Serialize a contiguous run of sections, each in its current state.
pub fn sections_to_bytes(sections: &Vec<MreaSection>, from: usize, to: usize) -> (r: Vec<u8>)
    requires
        from <= to <= sections@.len(),
        forall|i: int| 0 <= i < sections@.len() ==> (#[trigger] sections@[i]).wf(),
    ensures
        r@ == spec_section_array(sections@.subrange(from as int, to as int)),
{
    let mut out: Vec<u8> = Vec::new();
    let mut i: usize = from;
    while i < to
        invariant
            from <= i <= to <= sections@.len(),
            forall|j: int| 0 <= j < sections@.len() ==> (#[trigger] sections@[j]).wf(),
            out@ == spec_section_array(sections@.subrange(from as int, i as int)),
        decreases to - i,
    {
        let s = &sections[i];
        s.write_to(&mut out);
        proof {
            let sub1 = sections@.subrange(from as int, i + 1);
            assert(sub1.drop_last() =~= sections@.subrange(from as int, i as int));
            assert(sub1.last() == sections@[i as int]);
            assert(spec_section_array(sub1) == spec_section_array(
                sections@.subrange(from as int, i as int),
            ) + sections@[i as int].spec_serialize());
        }
        i = i + 1;
    }
    out
}



impl Mrea {
    /// Read-only view of the scripts section: borrowed if already
    /// promoted, freshly parsed (and owned) if still raw.
    pub fn scly_section(&self) -> (r: Result<MaybeOwned<Scly>, FormatError>)
        requires
            self.wf(),
        ensures
            r matches Ok(mo) ==> {
                &&& mo.value().wf()
                &&& (self.sections@[self.scly_section_idx as int] matches MreaSection::Scly(s)
                    ==> mo.value() == s)
                &&& (self.sections@[self.scly_section_idx as int] matches MreaSection::Unknown(b)
                    ==> mo.value().spec_serialize() == b@.subrange(0, mo.value().spec_size()))
            },
            self.sections@[self.scly_section_idx as int] is Scly ==> r is Ok,
            r is Err ==> !(self.sections@[self.scly_section_idx as int] is Scly),
            !(self.sections@[self.scly_section_idx as int] is Scly || self.sections@[self.scly_section_idx as int] is Unknown)
                ==> r == Err::<MaybeOwned<Scly>, FormatError>(FormatError::WrongSectionKind),
    {
        let idx = self.scly_section_idx as usize;
        match &self.sections[idx] {
            MreaSection::Unknown(b) => {
                let mut view = BinaryView::new(b.as_slice());
                match Scly::read_from(&mut view) {
                    Ok(s) => Ok(MaybeOwned::Owned(s)),
                    Err(e) => Err(e),
                }
            },
            MreaSection::Scly(s) => Ok(MaybeOwned::Borrowed(s)),
            _ => Err(FormatError::WrongSectionKind),
        }
    }

    /// Read-only view of the collision section; see [`Self::scly_section`].
    pub fn collision_section(&self) -> (r: Result<MaybeOwned<AreaCollision>, FormatError>)
        requires
            self.wf(),
        ensures
            r matches Ok(mo) ==> {
                &&& mo.value().wf()
                &&& (self.sections@[self.collision_section_idx as int]
                    matches MreaSection::Collision(c) ==> mo.value() == c)
                &&& (self.sections@[self.collision_section_idx as int]
                    matches MreaSection::Unknown(b) ==> mo.value().spec_serialize()
                    == b@.subrange(0, mo.value().spec_size()))
            },
            self.sections@[self.collision_section_idx as int] is Collision ==> r is Ok,
            self.sections@[self.collision_section_idx as int] matches MreaSection::Unknown(b)
                ==> (r is Ok <==> crate::collision::spec_area_collision_parses(b@, 0)),
            r is Err ==> !(self.sections@[self.collision_section_idx as int] is Collision),
            !(self.sections@[self.collision_section_idx as int] is Collision || self.sections@[self.collision_section_idx as int] is Unknown)
                ==> r == Err::<MaybeOwned<AreaCollision>, FormatError>(FormatError::WrongSectionKind),
    {
        let idx = self.collision_section_idx as usize;
        match &self.sections[idx] {
            MreaSection::Unknown(b) => {
                let mut view = BinaryView::new(b.as_slice());
                match AreaCollision::read_from(&mut view) {
                    Ok(c) => Ok(MaybeOwned::Owned(c)),
                    Err(e) => Err(e),
                }
            },
            MreaSection::Collision(c) => Ok(MaybeOwned::Borrowed(c)),
            _ => Err(FormatError::WrongSectionKind),
        }
    }

    /// Read-only view of the lights section; see [`Self::scly_section`].
    pub fn lights_section(&self) -> (r: Result<MaybeOwned<Lights>, FormatError>)
        requires
            self.wf(),
        ensures
            r matches Ok(mo) ==> {
                &&& mo.value().wf()
                &&& (self.sections@[self.lights_section_idx as int] matches MreaSection::Lights(l)
                    ==> mo.value() == l)
                &&& (self.sections@[self.lights_section_idx as int] matches MreaSection::Unknown(
                    b,
                ) ==> mo.value().spec_serialize() == b@.subrange(0, mo.value().spec_size()))
            },
            self.sections@[self.lights_section_idx as int] is Lights ==> r is Ok,
            self.sections@[self.lights_section_idx as int] matches MreaSection::Unknown(b) ==> (r
                is Ok <==> spec_lights_parses(b@, 0)),
            r is Err ==> !(self.sections@[self.lights_section_idx as int] is Lights),
            !(self.sections@[self.lights_section_idx as int] is Lights || self.sections@[self.lights_section_idx as int] is Unknown)
                ==> r == Err::<MaybeOwned<Lights>, FormatError>(FormatError::WrongSectionKind),
    {
        let idx = self.lights_section_idx as usize;
        match &self.sections[idx] {
            MreaSection::Unknown(b) => {
                let mut view = BinaryView::new(b.as_slice());
                match Lights::read_from(&mut view) {
                    Ok(l) => Ok(MaybeOwned::Owned(l)),
                    Err(e) => Err(e),
                }
            },
            MreaSection::Lights(l) => Ok(MaybeOwned::Borrowed(l)),
            _ => Err(FormatError::WrongSectionKind),
        }
    }

    /// Read-only view of the geometry material set held at the front of
    /// the world-geometry section; see [`Self::scly_section`].
    pub fn materials_section(&self) -> (r: Result<MaybeOwned<CmdlMaterialSet>, FormatError>)
        requires
            self.wf(),
        ensures
            r matches Ok(mo) ==> {
                &&& mo.value().wf()
                &&& (self.sections@[self.world_geometry_section_idx as int]
                    matches MreaSection::Materials(m) ==> mo.value() == m)
                &&& (self.sections@[self.world_geometry_section_idx as int]
                    matches MreaSection::Unknown(b) ==> mo.value().spec_serialize()
                    == b@.subrange(0, mo.value().spec_size()))
            },
            self.sections@[self.world_geometry_section_idx as int] is Materials ==> r is Ok,
            r is Err ==> !(self.sections@[self.world_geometry_section_idx as int] is Materials),
            !(self.sections@[self.world_geometry_section_idx as int] is Materials || self.sections@[self.world_geometry_section_idx as int] is Unknown)
                ==> r == Err::<MaybeOwned<CmdlMaterialSet>, FormatError>(FormatError::WrongSectionKind),
    {
        let idx = self.world_geometry_section_idx as usize;
        match &self.sections[idx] {
            MreaSection::Unknown(b) => {
                let mut view = BinaryView::new(b.as_slice());
                match CmdlMaterialSet::read_from(&mut view) {
                    Ok(m) => Ok(MaybeOwned::Owned(m)),
                    Err(e) => Err(e),
                }
            },
            MreaSection::Materials(m) => Ok(MaybeOwned::Borrowed(m)),
            _ => Err(FormatError::WrongSectionKind),
        }
    }

    /// Promote the scripts section in place; afterwards it can be reached
    /// and mutated through [`Self::sections`] under its typed kind.
    pub fn scly_section_mut(&mut self) -> (r: Result<(), FormatError>)
        requires
            old(self).wf(),
        ensures
            final(self).wf(),
            final(self).sections@.len() == old(self).sections@.len(),
            *final(self) == (Mrea { sections: final(self).sections, ..*old(self) }),
            forall|j: int|
                0 <= j < old(self).sections@.len() && j != old(self).scly_section_idx as int
                    ==> final(self).sections@[j] == old(self).sections@[j],
            r is Ok <==> final(self).sections@[old(self).scly_section_idx as int] is Scly,
            old(self).sections@[old(self).scly_section_idx as int] is Scly ==> r is Ok
                && final(self).sections@ == old(self).sections@,
            r is Err ==> final(self).sections@ == old(self).sections@,
    {
        let idx = self.scly_section_idx as usize;
        let sec = &mut self.sections[idx];
        let r = sec.convert_to_scly();
        proof {
            if old(self).sections@[idx as int] == self.sections@[idx as int] {
                assert(self.sections@ =~= old(self).sections@);
            }
        }
        r
    }

    /// Promote the collision section in place; see
    /// [`Self::scly_section_mut`].
    pub fn collision_section_mut(&mut self) -> (r: Result<(), FormatError>)
        requires
            old(self).wf(),
        ensures
            final(self).wf(),
            final(self).sections@.len() == old(self).sections@.len(),
            *final(self) == (Mrea { sections: final(self).sections, ..*old(self) }),
            forall|j: int|
                0 <= j < old(self).sections@.len() && j != old(self).collision_section_idx as int
                    ==> final(self).sections@[j] == old(self).sections@[j],
            r is Ok <==> final(self).sections@[old(self).collision_section_idx as int]
                is Collision,
            old(self).sections@[old(self).collision_section_idx as int] is Collision ==> r is Ok
                && final(self).sections@ == old(self).sections@,
            r is Err ==> final(self).sections@ == old(self).sections@,
    {
        let idx = self.collision_section_idx as usize;
        let sec = &mut self.sections[idx];
        let r = sec.convert_to_collision();
        proof {
            if old(self).sections@[idx as int] == self.sections@[idx as int] {
                assert(self.sections@ =~= old(self).sections@);
            }
        }
        r
    }

    /// Promote the lights section in place; see [`Self::scly_section_mut`].
    pub fn lights_section_mut(&mut self) -> (r: Result<(), FormatError>)
        requires
            old(self).wf(),
        ensures
            final(self).wf(),
            final(self).sections@.len() == old(self).sections@.len(),
            *final(self) == (Mrea { sections: final(self).sections, ..*old(self) }),
            forall|j: int|
                0 <= j < old(self).sections@.len() && j != old(self).lights_section_idx as int
                    ==> final(self).sections@[j] == old(self).sections@[j],
            r is Ok <==> final(self).sections@[old(self).lights_section_idx as int] is Lights,
            old(self).sections@[old(self).lights_section_idx as int] is Lights ==> r is Ok
                && final(self).sections@ == old(self).sections@,
            r is Err ==> final(self).sections@ == old(self).sections@,
    {
        let idx = self.lights_section_idx as usize;
        let sec = &mut self.sections[idx];
        let r = sec.convert_to_lights();
        proof {
            if old(self).sections@[idx as int] == self.sections@[idx as int] {
                assert(self.sections@ =~= old(self).sections@);
            }
        }
        r
    }

    /// Promote the geometry material set in place; see
    /// [`Self::scly_section_mut`].
    pub fn materials_section_mut(&mut self) -> (r: Result<(), FormatError>)
        requires
            old(self).wf(),
        ensures
            final(self).wf(),
            final(self).sections@.len() == old(self).sections@.len(),
            *final(self) == (Mrea { sections: final(self).sections, ..*old(self) }),
            forall|j: int|
                0 <= j < old(self).sections@.len() && j
                    != old(self).world_geometry_section_idx as int
                    ==> final(self).sections@[j] == old(self).sections@[j],
            r is Ok <==> final(self).sections@[old(self).world_geometry_section_idx as int]
                is Materials,
            old(self).sections@[old(self).world_geometry_section_idx as int] is Materials ==> r is Ok
                && final(self).sections@ == old(self).sections@,
            r is Err ==> final(self).sections@ == old(self).sections@,
    {
        let idx = self.world_geometry_section_idx as usize;
        let sec = &mut self.sections[idx];
        let r = sec.convert_to_materials();
        proof {
            if old(self).sections@[idx as int] == self.sections@[idx as int] {
                assert(self.sections@ =~= old(self).sections@);
            }
        }
        r
    }
}


} // verus!
