use crate::bytes::pad32_amount;
use crate::bytes::pad32_len;
use crate::bytes::push_be16;
use crate::bytes::push_be32;
use crate::bytes::push_be32_array;
use crate::bytes::read_be32_array;
use crate::bytes::spec_be16;
use crate::bytes::spec_be32;
use crate::bytes::spec_be32_array;
use crate::bytes::spec_u32_at;
use crate::bytes::zero_bytes;
use crate::bytes::BinaryView;
use crate::bytes::push_bytes;
use crate::bytes::push_zeros;
use crate::errors::FormatError;
use vstd::prelude::*;

verus! {

/// One TEV combiner stage of a material, sixteen fixed-layout bytes plus
/// four flag words.  All fields are opaque flag values to this codec.
#[derive(Clone, Copy, Debug, PartialEq, Eq, Structural)]
pub struct CmdlTevStage {
    pub color_in_flags: u32,
    pub alpha_in_flags: u32,
    pub color_combine_flags: u32,
    pub alpha_combine_flags: u32,
    pub padding: u8,
    pub konst_alpha_input: u8,
    pub konst_color_input: u8,
    pub rasterized_color_input: u8,
}

impl CmdlTevStage {
    /// Exact serialized form: four big-endian words, then four single bytes.
    pub open spec fn spec_serialize(self) -> Seq<u8> {
        spec_be32(self.color_in_flags) + spec_be32(self.alpha_in_flags) + spec_be32(
            self.color_combine_flags,
        ) + spec_be32(self.alpha_combine_flags) + seq![
            self.padding,
            self.konst_alpha_input,
            self.konst_color_input,
            self.rasterized_color_input,
        ]
    }

    pub fn read_from(v: &mut BinaryView) -> (r: Result<CmdlTevStage, FormatError>)
        requires
            old(v).wf(),
        ensures
            final(v).wf(),
            final(v).data() == old(v).data(),
            r matches Ok(t) ==> {
                &&& final(v).position() == old(v).position() + 20
                &&& t.spec_serialize() == old(v).data().subrange(
                    old(v).position(),
                    old(v).position() + 20,
                )
            },
            r matches Err(e) ==> e == FormatError::Truncated && old(v).remaining() < 20,
            old(v).remaining() >= 20 ==> r is Ok,
    {
        let ghost p0 = v.position();
        let color_in_flags = v.read_u32()?;
        let alpha_in_flags = v.read_u32()?;
        let color_combine_flags = v.read_u32()?;
        let alpha_combine_flags = v.read_u32()?;
        let padding = v.read_u8()?;
        let konst_alpha_input = v.read_u8()?;
        let konst_color_input = v.read_u8()?;
        let rasterized_color_input = v.read_u8()?;
        let t = CmdlTevStage {
            color_in_flags,
            alpha_in_flags,
            color_combine_flags,
            alpha_combine_flags,
            padding,
            konst_alpha_input,
            konst_color_input,
            rasterized_color_input,
        };
        proof {
            assert(t.spec_serialize() =~= old(v).data().subrange(p0, p0 + 20));
        }
        Ok(t)
    }

    pub fn write_to(&self, out: &mut Vec<u8>) -> (n: usize)
        ensures
            final(out)@ == old(out)@ + self.spec_serialize(),
            n == self.spec_serialize().len(),
    {
        push_be32(out, self.color_in_flags);
        push_be32(out, self.alpha_in_flags);
        push_be32(out, self.color_combine_flags);
        push_be32(out, self.alpha_combine_flags);
        out.push(self.padding);
        out.push(self.konst_alpha_input);
        out.push(self.konst_color_input);
        out.push(self.rasterized_color_input);
        proof {
            assert(final(out)@ =~= old(out)@ + self.spec_serialize());
        }
        20
    }

    /// The exact number of bytes [`Self::write_to`] emits.
    pub fn size(&self) -> (n: usize)
        ensures
            n == self.spec_serialize().len(),
    {
        20
    }
}

/// The texture/coordinate wiring of one TEV stage.
#[derive(Clone, Copy, Debug, PartialEq, Eq, Structural)]
pub struct CmdlTevStageTextureInput {
    pub padding: u16,
    pub texture_input: u8,
    pub tex_coord_input: u8,
}

impl CmdlTevStageTextureInput {
    /// Exact serialized form: the padding half-word, then two single bytes.
    pub open spec fn spec_serialize(self) -> Seq<u8> {
        spec_be16(self.padding) + seq![self.texture_input, self.tex_coord_input]
    }

    pub fn read_from(v: &mut BinaryView) -> (r: Result<CmdlTevStageTextureInput, FormatError>)
        requires
            old(v).wf(),
        ensures
            final(v).wf(),
            final(v).data() == old(v).data(),
            r matches Ok(t) ==> {
                &&& final(v).position() == old(v).position() + 4
                &&& t.spec_serialize() == old(v).data().subrange(
                    old(v).position(),
                    old(v).position() + 4,
                )
            },
            r matches Err(e) ==> e == FormatError::Truncated && old(v).remaining() < 4,
            old(v).remaining() >= 4 ==> r is Ok,
    {
        let ghost p0 = v.position();
        let padding = v.read_u16()?;
        let texture_input = v.read_u8()?;
        let tex_coord_input = v.read_u8()?;
        let t = CmdlTevStageTextureInput { padding, texture_input, tex_coord_input };
        proof {
            assert(t.spec_serialize() =~= old(v).data().subrange(p0, p0 + 4));
        }
        Ok(t)
    }

    pub fn write_to(&self, out: &mut Vec<u8>) -> (n: usize)
        ensures
            final(out)@ == old(out)@ + self.spec_serialize(),
            n == self.spec_serialize().len(),
    {
        push_be16(out, self.padding);
        out.push(self.texture_input);
        out.push(self.tex_coord_input);
        proof {
            assert(final(out)@ =~= old(out)@ + self.spec_serialize());
        }
        4
    }

    /// The exact number of bytes [`Self::write_to`] emits.
    pub fn size(&self) -> (n: usize)
        ensures
            n == self.spec_serialize().len(),
    {
        4
    }
}

/// The payload length, past the mode word, that each UV-animation mode
/// demands.
pub open spec fn spec_uv_mode_size(mode: u32) -> int {
    if mode == 0 || mode == 1 || mode == 6 {
        0int
    } else if mode == 3 || mode == 7 {
        8int
    } else {
        16int
    }
}

/// One UV-animation of a material: a leading mode word selects one of a
/// closed set of payload shapes.  An unknown mode is a fatal decode error,
/// never silently defaulted.  The payload words are raw bit patterns of
/// 32-bit floats; this codec never interprets them, it only carries them.
#[derive(Clone, Copy, Debug, PartialEq, Eq, Structural)]
pub enum CmdlUvAnimation {
    InvsereModelViewMatrixNoTranslation,
    InverseModelViewMatrix,
    UVScroll { offset_a: u32, offset_b: u32, scale_a: u32, scale_b: u32 },
    Rotation { offset: u32, scale: u32 },
    HorizontalFilmstrip { scale: u32, num_frames: u32, step: u32, offset: u32 },
    VerticalFilmstrip { scale: u32, num_frames: u32, step: u32, offset: u32 },
    ModelMatrix,
    CylinderEnvironment { param_a: u32, param_b: u32 },
}

impl CmdlUvAnimation {
    /// Exact serialized form: the mode word, then the payload words.
    pub open spec fn spec_serialize(self) -> Seq<u8> {
        match self {
            CmdlUvAnimation::InvsereModelViewMatrixNoTranslation => spec_be32(0),
            CmdlUvAnimation::InverseModelViewMatrix => spec_be32(1),
            CmdlUvAnimation::UVScroll { offset_a, offset_b, scale_a, scale_b } => spec_be32(2)
                + spec_be32(offset_a) + spec_be32(offset_b) + spec_be32(scale_a) + spec_be32(
                scale_b,
            ),
            CmdlUvAnimation::Rotation { offset, scale } => spec_be32(3) + spec_be32(offset)
                + spec_be32(scale),
            CmdlUvAnimation::HorizontalFilmstrip { scale, num_frames, step, offset } => spec_be32(4)
                + spec_be32(scale) + spec_be32(num_frames) + spec_be32(step) + spec_be32(offset),
            CmdlUvAnimation::VerticalFilmstrip { scale, num_frames, step, offset } => spec_be32(5)
                + spec_be32(scale) + spec_be32(num_frames) + spec_be32(step) + spec_be32(offset),
            CmdlUvAnimation::ModelMatrix => spec_be32(6),
            CmdlUvAnimation::CylinderEnvironment { param_a, param_b } => spec_be32(7) + spec_be32(
                param_a,
            ) + spec_be32(param_b),
        }
    }

    /// The serialized length of this animation: the mode word plus its
    /// payload.
    pub open spec fn spec_size(self) -> int {
        4 + (match self {
            CmdlUvAnimation::InvsereModelViewMatrixNoTranslation => 0int,
            CmdlUvAnimation::InverseModelViewMatrix => 0int,
            CmdlUvAnimation::UVScroll { .. } => 16int,
            CmdlUvAnimation::Rotation { .. } => 8int,
            CmdlUvAnimation::HorizontalFilmstrip { .. } => 16int,
            CmdlUvAnimation::VerticalFilmstrip { .. } => 16int,
            CmdlUvAnimation::ModelMatrix => 0int,
            CmdlUvAnimation::CylinderEnvironment { .. } => 8int,
        })
    }

    pub proof fn lemma_size(self)
        ensures
            self.spec_serialize().len() == self.spec_size(),
            4 <= self.spec_size() <= 20,
    {
    }

    /// The mode word each variant is stored under.
    pub open spec fn spec_mode(self) -> u32 {
        match self {
            CmdlUvAnimation::InvsereModelViewMatrixNoTranslation => 0,
            CmdlUvAnimation::InverseModelViewMatrix => 1,
            CmdlUvAnimation::UVScroll { .. } => 2,
            CmdlUvAnimation::Rotation { .. } => 3,
            CmdlUvAnimation::HorizontalFilmstrip { .. } => 4,
            CmdlUvAnimation::VerticalFilmstrip { .. } => 5,
            CmdlUvAnimation::ModelMatrix => 6,
            CmdlUvAnimation::CylinderEnvironment { .. } => 7,
        }
    }

    pub fn read_from(v: &mut BinaryView) -> (r: Result<CmdlUvAnimation, FormatError>)
        requires
            old(v).wf(),
        ensures
            final(v).wf(),
            final(v).data() == old(v).data(),
            r matches Ok(a) ==> {
                &&& final(v).position() == old(v).position() + a.spec_size()
                &&& a.spec_serialize() == old(v).data().subrange(
                    old(v).position(),
                    final(v).position(),
                )
            },
            r matches Err(e) ==> e == FormatError::Truncated || e
                == FormatError::UnknownVariantTag,
            r is Ok <==> (old(v).remaining() >= 4 && spec_u32_at(old(v).data(), old(v).position())
                <= 7 && old(v).remaining() >= 4 + spec_uv_mode_size(
                spec_u32_at(old(v).data(), old(v).position()),
            )),
            r == Err::<CmdlUvAnimation, FormatError>(FormatError::UnknownVariantTag) <==> (old(
                v,
            ).remaining() >= 4 && spec_u32_at(old(v).data(), old(v).position()) > 7),
            r matches Ok(a) ==> a.spec_mode() == spec_u32_at(old(v).data(), old(v).position()),
    {
        let ghost p0 = v.position();
        let mode = v.read_u32()?;
        if mode == 0 {
            let a = CmdlUvAnimation::InvsereModelViewMatrixNoTranslation;
            proof {
                assert(a.spec_serialize() =~= old(v).data().subrange(p0, p0 + 4));
            }
            Ok(a)
        } else if mode == 1 {
            let a = CmdlUvAnimation::InverseModelViewMatrix;
            proof {
                assert(a.spec_serialize() =~= old(v).data().subrange(p0, p0 + 4));
            }
            Ok(a)
        } else if mode == 2 {
            let offset_a = v.read_u32()?;
            let offset_b = v.read_u32()?;
            let scale_a = v.read_u32()?;
            let scale_b = v.read_u32()?;
            let a = CmdlUvAnimation::UVScroll { offset_a, offset_b, scale_a, scale_b };
            proof {
                assert(a.spec_serialize() =~= old(v).data().subrange(p0, p0 + 20));
            }
            Ok(a)
        } else if mode == 3 {
            let offset = v.read_u32()?;
            let scale = v.read_u32()?;
            let a = CmdlUvAnimation::Rotation { offset, scale };
            proof {
                assert(a.spec_serialize() =~= old(v).data().subrange(p0, p0 + 12));
            }
            Ok(a)
        } else if mode == 4 {
            let scale = v.read_u32()?;
            let num_frames = v.read_u32()?;
            let step = v.read_u32()?;
            let offset = v.read_u32()?;
            let a = CmdlUvAnimation::HorizontalFilmstrip { scale, num_frames, step, offset };
            proof {
                assert(a.spec_serialize() =~= old(v).data().subrange(p0, p0 + 20));
            }
            Ok(a)
        } else if mode == 5 {
            let scale = v.read_u32()?;
            let num_frames = v.read_u32()?;
            let step = v.read_u32()?;
            let offset = v.read_u32()?;
            let a = CmdlUvAnimation::VerticalFilmstrip { scale, num_frames, step, offset };
            proof {
                assert(a.spec_serialize() =~= old(v).data().subrange(p0, p0 + 20));
            }
            Ok(a)
        } else if mode == 6 {
            let a = CmdlUvAnimation::ModelMatrix;
            proof {
                assert(a.spec_serialize() =~= old(v).data().subrange(p0, p0 + 4));
            }
            Ok(a)
        } else if mode == 7 {
            let param_a = v.read_u32()?;
            let param_b = v.read_u32()?;
            let a = CmdlUvAnimation::CylinderEnvironment { param_a, param_b };
            proof {
                assert(a.spec_serialize() =~= old(v).data().subrange(p0, p0 + 12));
            }
            Ok(a)
        } else {
            Err(FormatError::UnknownVariantTag)
        }
    }

    pub fn write_to(&self, out: &mut Vec<u8>) -> (n: usize)
        ensures
            final(out)@ == old(out)@ + self.spec_serialize(),
            n == self.spec_serialize().len(),
    {
        match self {
            CmdlUvAnimation::InvsereModelViewMatrixNoTranslation => {
                push_be32(out, 0);
                4
            },
            CmdlUvAnimation::InverseModelViewMatrix => {
                push_be32(out, 1);
                4
            },
            CmdlUvAnimation::UVScroll { offset_a, offset_b, scale_a, scale_b } => {
                push_be32(out, 2);
                push_be32(out, *offset_a);
                push_be32(out, *offset_b);
                push_be32(out, *scale_a);
                push_be32(out, *scale_b);
                proof {
                    assert(final(out)@ =~= old(out)@ + self.spec_serialize());
                }
                20
            },
            CmdlUvAnimation::Rotation { offset, scale } => {
                push_be32(out, 3);
                push_be32(out, *offset);
                push_be32(out, *scale);
                proof {
                    assert(final(out)@ =~= old(out)@ + self.spec_serialize());
                }
                12
            },
            CmdlUvAnimation::HorizontalFilmstrip { scale, num_frames, step, offset } => {
                push_be32(out, 4);
                push_be32(out, *scale);
                push_be32(out, *num_frames);
                push_be32(out, *step);
                push_be32(out, *offset);
                proof {
                    assert(final(out)@ =~= old(out)@ + self.spec_serialize());
                }
                20
            },
            CmdlUvAnimation::VerticalFilmstrip { scale, num_frames, step, offset } => {
                push_be32(out, 5);
                push_be32(out, *scale);
                push_be32(out, *num_frames);
                push_be32(out, *step);
                push_be32(out, *offset);
                proof {
                    assert(final(out)@ =~= old(out)@ + self.spec_serialize());
                }
                20
            },
            CmdlUvAnimation::ModelMatrix => {
                push_be32(out, 6);
                4
            },
            CmdlUvAnimation::CylinderEnvironment { param_a, param_b } => {
                push_be32(out, 7);
                push_be32(out, *param_a);
                push_be32(out, *param_b);
                proof {
                    assert(final(out)@ =~= old(out)@ + self.spec_serialize());
                }
                12
            },
        }
    }

    /// The exact number of bytes [`Self::write_to`] emits, re-derived from
    /// the current variant.
    pub fn size(&self) -> (n: usize)
        ensures
            n == self.spec_serialize().len(),
            n == self.spec_size(),
    {
        proof {
            self.lemma_size();
        }
        4 + match self {
            CmdlUvAnimation::InvsereModelViewMatrixNoTranslation => 0usize,
            CmdlUvAnimation::InverseModelViewMatrix => 0,
            CmdlUvAnimation::UVScroll { .. } => 16,
            CmdlUvAnimation::Rotation { .. } => 8,
            CmdlUvAnimation::HorizontalFilmstrip { .. } => 16,
            CmdlUvAnimation::VerticalFilmstrip { .. } => 16,
            CmdlUvAnimation::ModelMatrix => 0,
            CmdlUvAnimation::CylinderEnvironment { .. } => 8,
        }
    }
}


/// Concatenated serialization of a sequence of TEV stages.
pub open spec fn spec_tev_stage_array(s: Seq<CmdlTevStage>) -> Seq<u8>
    decreases s.len(),
{
    if s.len() == 0 {
        Seq::empty()
    } else {
        spec_tev_stage_array(s.drop_last()) + s.last().spec_serialize()
    }
}

pub proof fn lemma_tev_stage_array_len(s: Seq<CmdlTevStage>)
    ensures
        spec_tev_stage_array(s).len() == 20 * s.len(),
    decreases s.len(),
{
    if s.len() > 0 {
        lemma_tev_stage_array_len(s.drop_last());
    }
}

/// Concatenated serialization of a sequence of TEV stage texture inputs.
pub open spec fn spec_tev_input_array(s: Seq<CmdlTevStageTextureInput>) -> Seq<u8>
    decreases s.len(),
{
    if s.len() == 0 {
        Seq::empty()
    } else {
        spec_tev_input_array(s.drop_last()) + s.last().spec_serialize()
    }
}

pub proof fn lemma_tev_input_array_len(s: Seq<CmdlTevStageTextureInput>)
    ensures
        spec_tev_input_array(s).len() == 4 * s.len(),
    decreases s.len(),
{
    if s.len() > 0 {
        lemma_tev_input_array_len(s.drop_last());
    }
}

/// Concatenated serialization of a sequence of UV animations.
pub open spec fn spec_uv_anim_array(s: Seq<CmdlUvAnimation>) -> Seq<u8>
    decreases s.len(),
{
    if s.len() == 0 {
        Seq::empty()
    } else {
        spec_uv_anim_array(s.drop_last()) + s.last().spec_serialize()
    }
}

/// Total serialized length of a sequence of UV animations.
pub open spec fn spec_uv_anim_array_size(s: Seq<CmdlUvAnimation>) -> int
    decreases s.len(),
{
    if s.len() == 0 {
        0
    } else {
        spec_uv_anim_array_size(s.drop_last()) + s.last().spec_size()
    }
}

pub proof fn lemma_uv_anim_array_len(s: Seq<CmdlUvAnimation>)
    ensures
        spec_uv_anim_array(s).len() == spec_uv_anim_array_size(s),
        4 * s.len() <= spec_uv_anim_array_size(s) <= 20 * s.len(),
    decreases s.len(),
{
    if s.len() > 0 {
        lemma_uv_anim_array_len(s.drop_last());
        s.last().lemma_size();
    }
}

fn read_tev_stage_array(v: &mut BinaryView, n: usize) -> (r: Result<
    Vec<CmdlTevStage>,
    FormatError,
>)
    requires
        old(v).wf(),
    ensures
        final(v).wf(),
        final(v).data() == old(v).data(),
        r matches Ok(a) ==> {
            &&& a@.len() == n
            &&& final(v).position() == old(v).position() + 20 * n
            &&& spec_tev_stage_array(a@) == old(v).data().subrange(
                old(v).position(),
                final(v).position(),
            )
        },
        r matches Err(e) ==> e == FormatError::Truncated && old(v).remaining() < 20 * n,
{
    let mut a: Vec<CmdlTevStage> = Vec::new();
    let ghost start = v.position();
    let mut i: usize = 0;
    while i < n
        invariant
            old(v).wf(),
            v.wf(),
            v.data() == old(v).data(),
            start == old(v).position(),
            i <= n,
            a@.len() == i,
            v.position() == start + 20 * i,
            spec_tev_stage_array(a@) == old(v).data().subrange(start, v.position()),
        decreases n - i,
    {
        let ghost pos0 = v.position();
        let ghost a0 = a@;
        let x = match CmdlTevStage::read_from(v) {
            Ok(x) => x,
            Err(e) => {
                return Err(e);
            },
        };
        a.push(x);
        proof {
            assert(a@ =~= a0.push(x));
            assert(a@.drop_last() =~= a0);
            assert(a@.last() == x);
            assert(spec_tev_stage_array(a@) == spec_tev_stage_array(a0) + x.spec_serialize());
            assert(old(v).data().subrange(start, pos0) + old(v).data().subrange(
                pos0,
                v.position(),
            ) =~= old(v).data().subrange(start, v.position()));
        }
        i = i + 1;
    }
    Ok(a)
}

fn write_tev_stage_array(out: &mut Vec<u8>, a: &Vec<CmdlTevStage>)
    ensures
        final(out)@ == old(out)@ + spec_tev_stage_array(a@),
{
    let mut i: usize = 0;
    while i < a.len()
        invariant
            i <= a@.len(),
            out@ == old(out)@ + spec_tev_stage_array(a@.take(i as int)),
        decreases a@.len() - i,
    {
        let x = a[i];
        x.write_to(out);
        proof {
            assert(a@.take(i + 1).drop_last() =~= a@.take(i as int));
            assert(a@.take(i + 1).last() == x);
            assert(spec_tev_stage_array(a@.take(i + 1)) == spec_tev_stage_array(
                a@.take(i as int),
            ) + x.spec_serialize());
        }
        i = i + 1;
    }
    proof {
        assert(a@.take(a@.len() as int) =~= a@);
    }
}

fn read_tev_input_array(v: &mut BinaryView, n: usize) -> (r: Result<
    Vec<CmdlTevStageTextureInput>,
    FormatError,
>)
    requires
        old(v).wf(),
    ensures
        final(v).wf(),
        final(v).data() == old(v).data(),
        r matches Ok(a) ==> {
            &&& a@.len() == n
            &&& final(v).position() == old(v).position() + 4 * n
            &&& spec_tev_input_array(a@) == old(v).data().subrange(
                old(v).position(),
                final(v).position(),
            )
        },
        r matches Err(e) ==> e == FormatError::Truncated && old(v).remaining() < 4 * n,
{
    let mut a: Vec<CmdlTevStageTextureInput> = Vec::new();
    let ghost start = v.position();
    let mut i: usize = 0;
    while i < n
        invariant
            old(v).wf(),
            v.wf(),
            v.data() == old(v).data(),
            start == old(v).position(),
            i <= n,
            a@.len() == i,
            v.position() == start + 4 * i,
            spec_tev_input_array(a@) == old(v).data().subrange(start, v.position()),
        decreases n - i,
    {
        let ghost pos0 = v.position();
        let ghost a0 = a@;
        let x = match CmdlTevStageTextureInput::read_from(v) {
            Ok(x) => x,
            Err(e) => {
                return Err(e);
            },
        };
        a.push(x);
        proof {
            assert(a@ =~= a0.push(x));
            assert(a@.drop_last() =~= a0);
            assert(a@.last() == x);
            assert(spec_tev_input_array(a@) == spec_tev_input_array(a0) + x.spec_serialize());
            assert(old(v).data().subrange(start, pos0) + old(v).data().subrange(
                pos0,
                v.position(),
            ) =~= old(v).data().subrange(start, v.position()));
        }
        i = i + 1;
    }
    Ok(a)
}

fn write_tev_input_array(out: &mut Vec<u8>, a: &Vec<CmdlTevStageTextureInput>)
    ensures
        final(out)@ == old(out)@ + spec_tev_input_array(a@),
{
    let mut i: usize = 0;
    while i < a.len()
        invariant
            i <= a@.len(),
            out@ == old(out)@ + spec_tev_input_array(a@.take(i as int)),
        decreases a@.len() - i,
    {
        let x = a[i];
        x.write_to(out);
        proof {
            assert(a@.take(i + 1).drop_last() =~= a@.take(i as int));
            assert(a@.take(i + 1).last() == x);
            assert(spec_tev_input_array(a@.take(i + 1)) == spec_tev_input_array(
                a@.take(i as int),
            ) + x.spec_serialize());
        }
        i = i + 1;
    }
    proof {
        assert(a@.take(a@.len() as int) =~= a@);
    }
}

/// Whether `n` UV animations decode at `pos`: each mode word is in the
/// closed set and its payload fits.
pub open spec fn spec_uv_anims_parse(data: Seq<u8>, pos: int, n: int) -> bool
    decreases n,
{
    if n <= 0 {
        true
    } else {
        let len = data.len() as int;
        &&& pos + 4 <= len
        &&& spec_u32_at(data, pos) <= 7
        &&& pos + 4 + spec_uv_mode_size(spec_u32_at(data, pos)) <= len
        &&& spec_uv_anims_parse(
            data,
            pos + 4 + spec_uv_mode_size(spec_u32_at(data, pos)),
            n - 1,
        )
    }
}

/// Byte offset just past `n` UV animations that start at `pos`.
pub open spec fn spec_uv_anims_end(data: Seq<u8>, pos: int, n: int) -> int
    decreases n,
{
    if n <= 0 {
        pos
    } else {
        spec_uv_anims_end(data, pos + 4 + spec_uv_mode_size(spec_u32_at(data, pos)), n - 1)
    }
}

fn read_uv_anim_array(v: &mut BinaryView, n: usize) -> (r: Result<
    Vec<CmdlUvAnimation>,
    FormatError,
>)
    requires
        old(v).wf(),
    ensures
        final(v).wf(),
        final(v).data() == old(v).data(),
        r matches Ok(a) ==> {
            &&& a@.len() == n
            &&& final(v).position() == old(v).position() + spec_uv_anim_array_size(a@)
            &&& final(v).position() == spec_uv_anims_end(
                old(v).data(),
                old(v).position(),
                n as int,
            )
            &&& spec_uv_anim_array(a@) == old(v).data().subrange(
                old(v).position(),
                final(v).position(),
            )
        },
        r is Ok <==> spec_uv_anims_parse(old(v).data(), old(v).position(), n as int),
        r matches Err(e) ==> e == FormatError::Truncated || e == FormatError::UnknownVariantTag,
{
    let mut a: Vec<CmdlUvAnimation> = Vec::new();
    let ghost start = v.position();
    let mut i: usize = 0;
    while i < n
        invariant
            old(v).wf(),
            v.wf(),
            v.data() == old(v).data(),
            start == old(v).position(),
            i <= n,
            a@.len() == i,
            v.position() == start + spec_uv_anim_array_size(a@),
            spec_uv_anim_array(a@) == old(v).data().subrange(start, v.position()),
            spec_uv_anims_parse(old(v).data(), start, n as int) <==> spec_uv_anims_parse(
                old(v).data(),
                v.position(),
                n - i,
            ),
            spec_uv_anims_parse(old(v).data(), start, n as int) ==> spec_uv_anims_end(
                old(v).data(),
                start,
                n as int,
            ) == spec_uv_anims_end(old(v).data(), v.position(), n - i),
        decreases n - i,
    {
        let ghost pos0 = v.position();
        let ghost a0 = a@;
        let x = match CmdlUvAnimation::read_from(v) {
            Ok(x) => x,
            Err(e) => {
                return Err(e);
            },
        };
        a.push(x);
        proof {
            lemma_uv_anim_array_len(a0);
            x.lemma_size();
            assert(a@ =~= a0.push(x));
            assert(a@.drop_last() =~= a0);
            assert(a@.last() == x);
            assert(spec_uv_anim_array(a@) == spec_uv_anim_array(a0) + x.spec_serialize());
            assert(spec_uv_anim_array_size(a@) == spec_uv_anim_array_size(a0) + x.spec_size());
            assert(old(v).data().subrange(start, pos0) + old(v).data().subrange(
                pos0,
                v.position(),
            ) =~= old(v).data().subrange(start, v.position()));
            assert(x.spec_size() == 4 + spec_uv_mode_size(x.spec_mode()));
            assert(v.position() == pos0 + 4 + spec_uv_mode_size(
                spec_u32_at(old(v).data(), pos0),
            ));
        }
        i = i + 1;
    }
    Ok(a)
}

fn write_uv_anim_array(out: &mut Vec<u8>, a: &Vec<CmdlUvAnimation>)
    ensures
        final(out)@ == old(out)@ + spec_uv_anim_array(a@),
{
    let mut i: usize = 0;
    while i < a.len()
        invariant
            i <= a@.len(),
            out@ == old(out)@ + spec_uv_anim_array(a@.take(i as int)),
        decreases a@.len() - i,
    {
        let x = a[i];
        x.write_to(out);
        proof {
            assert(a@.take(i + 1).drop_last() =~= a@.take(i as int));
            assert(a@.take(i + 1).last() == x);
            assert(spec_uv_anim_array(a@.take(i + 1)) == spec_uv_anim_array(a@.take(i as int))
                + x.spec_serialize());
        }
        i = i + 1;
    }
    proof {
        assert(a@.take(a@.len() as int) =~= a@);
    }
}

/// A prefix of a UV-animation list never serializes longer than the whole.
pub proof fn lemma_uv_size_take_le(s: Seq<CmdlUvAnimation>, i: int)
    requires
        0 <= i <= s.len(),
    ensures
        spec_uv_anim_array_size(s.take(i)) <= spec_uv_anim_array_size(s),
    decreases s.len() - i,
{
    if i < s.len() {
        assert(s.take(i + 1).drop_last() =~= s.take(i));
        assert(s.take(i + 1).last() == s[i]);
        assert(spec_uv_anim_array_size(s.take(i + 1)) == spec_uv_anim_array_size(s.take(i))
            + s[i].spec_size());
        s[i].lemma_size();
        lemma_uv_size_take_le(s, i + 1);
    } else {
        assert(s.take(i) =~= s);
    }
}

fn uv_anim_array_size(a: &Vec<CmdlUvAnimation>) -> (n: usize)
    requires
        spec_uv_anim_array_size(a@) <= 0xFFFF_FF00,
    ensures
        n == spec_uv_anim_array_size(a@),
{
    let mut sum: usize = 0;
    let mut i: usize = 0;
    while i < a.len()
        invariant
            spec_uv_anim_array_size(a@) <= 0xFFFF_FF00,
            i <= a@.len(),
            sum == spec_uv_anim_array_size(a@.take(i as int)),
        decreases a@.len() - i,
    {
        let x = a[i];
        let k = x.size();
        proof {
            x.lemma_size();
            assert(a@.take(i + 1).drop_last() =~= a@.take(i as int));
            assert(a@.take(i + 1).last() == x);
            assert(spec_uv_anim_array_size(a@.take(i + 1)) == spec_uv_anim_array_size(
                a@.take(i as int),
            ) + x.spec_size());
            lemma_uv_size_take_le(a@, i + 1);
        }
        sum = sum + k;
        i = i + 1;
    }
    proof {
        assert(a@.take(a@.len() as int) =~= a@);
    }
    sum
}



/// Byte offset just past a material that starts at `pos`, every region
/// sized from the stored counts and the stored flag bits.
pub open spec fn spec_material_end(data: Seq<u8>, pos: int) -> int {
    let flags = spec_u32_at(data, pos);
    let tc = spec_u32_at(data, pos + 4) as int;
    let o1 = pos + 8 + 4 * tc;
    let o2 = if flags & 0x8 != 0 {
        o1 + 12 + 4 * (spec_u32_at(data, o1 + 8) as int)
    } else {
        o1 + 8
    };
    let o3 = if flags & 0x400 != 0 {
        o2 + 8
    } else {
        o2 + 4
    };
    let o4 = o3 + 4 + 4 * (spec_u32_at(data, o3) as int);
    let o5 = o4 + 4 + 24 * (spec_u32_at(data, o4) as int);
    let o6 = o5 + 4 + 4 * (spec_u32_at(data, o5) as int);
    spec_uv_anims_end(data, o6 + 8, spec_u32_at(data, o6 + 4) as int)
}

/// Whether a material decodes at `pos`: every stored count and both
/// conditional fields leave their regions inside the data, every UV
/// animation mode is known, and the stored animation-section size equals
/// the measured extent.
pub open spec fn spec_material_parses(data: Seq<u8>, pos: int) -> bool {
    let len = data.len() as int;
    &&& pos + 8 <= len
    &&& {
        let flags = spec_u32_at(data, pos);
        let tc = spec_u32_at(data, pos + 4) as int;
        let o1 = pos + 8 + 4 * tc;
        &&& o1 + 8 <= len
        &&& (flags & 0x8 != 0 ==> o1 + 12 <= len)
        &&& {
            let o2 = if flags & 0x8 != 0 {
                o1 + 12 + 4 * (spec_u32_at(data, o1 + 8) as int)
            } else {
                o1 + 8
            };
            &&& o2 + 4 <= len
            &&& {
                let o3 = if flags & 0x400 != 0 {
                    o2 + 8
                } else {
                    o2 + 4
                };
                &&& o3 + 4 <= len
                &&& {
                    let o4 = o3 + 4 + 4 * (spec_u32_at(data, o3) as int);
                    &&& o4 + 4 <= len
                    &&& {
                        let o5 = o4 + 4 + 24 * (spec_u32_at(data, o4) as int);
                        &&& o5 + 4 <= len
                        &&& {
                            let o6 = o5 + 4 + 4 * (spec_u32_at(data, o5) as int);
                            &&& o6 + 8 <= len
                            &&& {
                                let uvn = spec_u32_at(data, o6 + 4) as int;
                                &&& spec_uv_anims_parse(data, o6 + 8, uvn)
                                &&& (spec_u32_at(data, o6) as int) == spec_uv_anims_end(
                                    data,
                                    o6 + 8,
                                    uvn,
                                ) - (o6 + 8) + 4
                            }
                        }
                    }
                }
            }
        }
    }
}

/// One material of a geometry material set.  The `flags` word controls two
/// conditional fields: the konst-color block (bit 0x8) and the indirect
/// texture slot (bit 0x400).  Presence is re-derived from the *current*
/// flags on every measure and write, never fixed at parse time.
#[derive(Debug, Clone, PartialEq)]
pub struct CmdlMaterial {
    pub flags: u32,
    pub texture_indicies: Vec<u32>,
    pub vertex_attribute_flags: u32,
    pub group_index: u32,
    pub konsts: Vec<u32>,
    pub blend_destination_factor: u16,
    pub blend_source_factor: u16,
    pub reflection_indirect_texture_slot_index: Option<u32>,
    pub color_channel_flags: Vec<u32>,
    pub tev_stages: Vec<CmdlTevStage>,
    pub tev_stage_texture_inputs: Vec<CmdlTevStageTextureInput>,
    pub texgen_flags: Vec<u32>,
    pub uv_animations: Vec<CmdlUvAnimation>,
}

impl CmdlMaterial {
    /// Structural validity: the texture-input table is parallel to the TEV
    /// stage table, an indirect slot exists whenever its flag bit is set,
    /// and the whole record fits the 32-bit size fields of the format.
    pub open spec fn wf(self) -> bool {
        &&& self.tev_stage_texture_inputs@.len() == self.tev_stages@.len()
        &&& (self.flags & 0x400 != 0 ==> self.reflection_indirect_texture_slot_index is Some)
        &&& self.spec_size() <= 0xFFFF_FF00
    }

    /// The exact serialized length, with every count and conditional field
    /// re-derived from the current state.
    pub open spec fn spec_size(self) -> int {
        4 + 4 + 4 * self.texture_indicies@.len() + 4 + 4 + (if self.flags & 0x8 != 0 {
            4 + 4 * (self.konsts@.len() as int)
        } else {
            0int
        }) + 2 + 2 + (if self.flags & 0x400 != 0 {
            4int
        } else {
            0int
        }) + 4 + 4 * self.color_channel_flags@.len() + 4 + 20 * self.tev_stages@.len() + 4
            * self.tev_stage_texture_inputs@.len() + 4 + 4 * self.texgen_flags@.len() + 4 + 4
            + spec_uv_anim_array_size(self.uv_animations@)
    }

    /// Exact serialized form.  Every count field is the length of its live
    /// array; the animation-section size is re-derived from the live list.
    pub open spec fn spec_serialize(self) -> Seq<u8> {
        spec_be32(self.flags) + spec_be32(self.texture_indicies@.len() as u32) + spec_be32_array(
            self.texture_indicies@,
        ) + spec_be32(self.vertex_attribute_flags) + spec_be32(self.group_index) + (if self.flags
            & 0x8 != 0 {
            spec_be32(self.konsts@.len() as u32) + spec_be32_array(self.konsts@)
        } else {
            Seq::empty()
        }) + spec_be16(self.blend_destination_factor) + spec_be16(self.blend_source_factor) + (
        if self.flags & 0x400 != 0 {
            spec_be32(self.reflection_indirect_texture_slot_index.unwrap())
        } else {
            Seq::empty()
        }) + spec_be32(self.color_channel_flags@.len() as u32) + spec_be32_array(
            self.color_channel_flags@,
        ) + spec_be32(self.tev_stages@.len() as u32) + spec_tev_stage_array(self.tev_stages@)
            + spec_tev_input_array(self.tev_stage_texture_inputs@) + spec_be32(
            self.texgen_flags@.len() as u32,
        ) + spec_be32_array(self.texgen_flags@) + spec_be32(
            (spec_uv_anim_array_size(self.uv_animations@) + 4) as u32,
        ) + spec_be32(self.uv_animations@.len() as u32) + spec_uv_anim_array(self.uv_animations@)
    }

    /// The serialized form is exactly as long as the measured size says.
    pub proof fn lemma_size(self)
        ensures
            self.spec_serialize().len() == self.spec_size(),
            spec_uv_anim_array_size(self.uv_animations@) >= 0,
    {
        crate::bytes::lemma_be32_array_len(self.texture_indicies@);
        crate::bytes::lemma_be32_array_len(self.konsts@);
        crate::bytes::lemma_be32_array_len(self.color_channel_flags@);
        crate::bytes::lemma_be32_array_len(self.texgen_flags@);
        lemma_tev_stage_array_len(self.tev_stages@);
        lemma_tev_input_array_len(self.tev_stage_texture_inputs@);
        lemma_uv_anim_array_len(self.uv_animations@);
    }

    /// The exact number of bytes [`Self::write_to`] emits, re-derived from
    /// the current field values and flag bits.
    pub fn size(&self) -> (n: usize)
        requires
            self.wf(),
        ensures
            n == self.spec_size(),
            n == self.spec_serialize().len(),
    {
        proof {
            self.lemma_size();
            lemma_uv_size_take_le(self.uv_animations@, self.uv_animations@.len() as int);
        }
        let mut sum: usize = 4;
        sum = sum + 4 + 4 * self.texture_indicies.len();
        sum = sum + 4 + 4;
        if self.flags & 0x8 != 0 {
            sum = sum + 4 + 4 * self.konsts.len();
        }
        sum = sum + 2 + 2;
        if self.flags & 0x400 != 0 {
            sum = sum + 4;
        }
        sum = sum + 4 + 4 * self.color_channel_flags.len();
        sum = sum + 4 + 20 * self.tev_stages.len();
        sum = sum + 4 * self.tev_stage_texture_inputs.len();
        sum = sum + 4 + 4 * self.texgen_flags.len();
        sum = sum + 4 + 4;
        let uv = uv_anim_array_size(&self.uv_animations);
        sum = sum + uv;
        sum
    }

    #[verifier::rlimit(100)]
    #[verifier::spinoff_prover]
    pub fn write_to(&self, out: &mut Vec<u8>) -> (n: usize)
        requires
            self.wf(),
        ensures
            final(out)@ == old(out)@ + self.spec_serialize(),
            n == self.spec_serialize().len(),
    {
        proof {
            self.lemma_size();
        }
        let n = self.size();
        let ghost base = out@;
        let ghost mut acc = Seq::<u8>::empty();
        push_be32(out, self.flags);
        push_be32(out, self.texture_indicies.len() as u32);
        push_be32_array(out, &self.texture_indicies);
        push_be32(out, self.vertex_attribute_flags);
        push_be32(out, self.group_index);
        proof {
            acc = spec_be32(self.flags) + spec_be32(self.texture_indicies@.len() as u32)
                + spec_be32_array(self.texture_indicies@) + spec_be32(self.vertex_attribute_flags)
                + spec_be32(self.group_index);
            assert(out@ =~= base + acc);
        }
        if self.flags & 0x8 != 0 {
            push_be32(out, self.konsts.len() as u32);
            push_be32_array(out, &self.konsts);
        }
        proof {
            acc = acc + (if self.flags & 0x8 != 0 {
                spec_be32(self.konsts@.len() as u32) + spec_be32_array(self.konsts@)
            } else {
                Seq::empty()
            });
            assert(out@ =~= base + acc);
        }
        push_be16(out, self.blend_destination_factor);
        push_be16(out, self.blend_source_factor);
        proof {
            acc = acc + spec_be16(self.blend_destination_factor) + spec_be16(
                self.blend_source_factor,
            );
            assert(out@ =~= base + acc);
        }
        if self.flags & 0x400 != 0 {
            let slot = match self.reflection_indirect_texture_slot_index {
                Some(slot) => slot,
                None => 0,
            };
            push_be32(out, slot);
        }
        proof {
            acc = acc + (if self.flags & 0x400 != 0 {
                spec_be32(self.reflection_indirect_texture_slot_index.unwrap())
            } else {
                Seq::empty()
            });
            assert(out@ =~= base + acc);
        }
        push_be32(out, self.color_channel_flags.len() as u32);
        push_be32_array(out, &self.color_channel_flags);
        push_be32(out, self.tev_stages.len() as u32);
        write_tev_stage_array(out, &self.tev_stages);
        write_tev_input_array(out, &self.tev_stage_texture_inputs);
        push_be32(out, self.texgen_flags.len() as u32);
        push_be32_array(out, &self.texgen_flags);
        proof {
            acc = acc + spec_be32(self.color_channel_flags@.len() as u32) + spec_be32_array(
                self.color_channel_flags@,
            ) + spec_be32(self.tev_stages@.len() as u32) + spec_tev_stage_array(self.tev_stages@)
                + spec_tev_input_array(self.tev_stage_texture_inputs@) + spec_be32(
                self.texgen_flags@.len() as u32,
            ) + spec_be32_array(self.texgen_flags@);
            assert(out@ =~= base + acc);
        }
        let uv = uv_anim_array_size(&self.uv_animations);
        push_be32(out, (uv + 4) as u32);
        push_be32(out, self.uv_animations.len() as u32);
        write_uv_anim_array(out, &self.uv_animations);
        proof {
            acc = acc + spec_be32((spec_uv_anim_array_size(self.uv_animations@) + 4) as u32)
                + spec_be32(self.uv_animations@.len() as u32) + spec_uv_anim_array(
                self.uv_animations@,
            );
            assert(out@ =~= base + acc);
            assert(self.spec_serialize() =~= acc);
        }
        n
    }

    #[verifier::rlimit(100)]
    #[verifier::spinoff_prover]
    pub fn read_from(v: &mut BinaryView) -> (r: Result<CmdlMaterial, FormatError>)
        requires
            old(v).wf(),
            old(v).data().len() <= 0xFFFF_FF00,
        ensures
            final(v).wf(),
            final(v).data() == old(v).data(),
            r matches Ok(m) ==> {
                &&& m.wf()
                &&& final(v).position() == old(v).position() + m.spec_size()
                &&& m.spec_serialize() == old(v).data().subrange(
                    old(v).position(),
                    final(v).position(),
                )
                &&& (m.flags & 0x8 == 0 ==> m.konsts@.len() == 0)
                &&& (m.flags & 0x400 == 0 ==> m.reflection_indirect_texture_slot_index is None)
                &&& final(v).position() == spec_material_end(old(v).data(), old(v).position())
            },
            r is Ok <==> spec_material_parses(old(v).data(), old(v).position()),
            r matches Err(e) ==> e == FormatError::Truncated || e
                == FormatError::UnknownVariantTag || e == FormatError::SizeMismatch,
    {
        let ghost p0 = v.position();
        let flags = v.read_u32()?;
        let ghost mut acc = spec_be32(flags);
        let ghost mut prev = v.position();
        let texture_count = v.read_u32()?;
        proof {
            crate::bytes::lemma_subrange_join(old(v).data(), p0, prev, v.position());
            acc = acc + spec_be32(texture_count);
            prev = v.position();
        }
        let texture_indicies = read_be32_array(v, texture_count as usize)?;
        proof {
            crate::bytes::lemma_subrange_join(old(v).data(), p0, prev, v.position());
            acc = acc + spec_be32_array(texture_indicies@);
            prev = v.position();
        }
        let vertex_attribute_flags = v.read_u32()?;
        proof {
            crate::bytes::lemma_subrange_join(old(v).data(), p0, prev, v.position());
            acc = acc + spec_be32(vertex_attribute_flags);
            prev = v.position();
        }
        let group_index = v.read_u32()?;
        proof {
            crate::bytes::lemma_subrange_join(old(v).data(), p0, prev, v.position());
            acc = acc + spec_be32(group_index);
            prev = v.position();
        }
        let konsts = if flags & 0x8 != 0 {
            let konst_count = v.read_u32()?;
            let ghost mid = v.position();
            let konsts = read_be32_array(v, konst_count as usize)?;
            proof {
                assert(spec_be32(konst_count) + spec_be32_array(konsts@) =~= old(
                    v,
                ).data().subrange(prev, v.position()));
                crate::bytes::lemma_subrange_join(old(v).data(), p0, prev, v.position());
                acc = acc + (spec_be32(konst_count) + spec_be32_array(konsts@));
                prev = v.position();
            }
            konsts
        } else {
            let konsts: Vec<u32> = Vec::new();
            proof {
                crate::bytes::lemma_subrange_empty(old(v).data(), prev);
                crate::bytes::lemma_subrange_join(old(v).data(), p0, prev, v.position());
                acc = acc + Seq::<u8>::empty();
                prev = v.position();
            }
            konsts
        };
        let blend_destination_factor = v.read_u16()?;
        proof {
            crate::bytes::lemma_subrange_join(old(v).data(), p0, prev, v.position());
            acc = acc + spec_be16(blend_destination_factor);
            prev = v.position();
        }
        let blend_source_factor = v.read_u16()?;
        proof {
            crate::bytes::lemma_subrange_join(old(v).data(), p0, prev, v.position());
            acc = acc + spec_be16(blend_source_factor);
            prev = v.position();
        }
        let reflection_indirect_texture_slot_index = if flags & 0x400 != 0 {
            let slot = v.read_u32()?;
            proof {
                crate::bytes::lemma_subrange_join(old(v).data(), p0, prev, v.position());
                acc = acc + spec_be32(slot);
                prev = v.position();
            }
            Some(slot)
        } else {
            proof {
                crate::bytes::lemma_subrange_empty(old(v).data(), prev);
                crate::bytes::lemma_subrange_join(old(v).data(), p0, prev, v.position());
                acc = acc + Seq::<u8>::empty();
                prev = v.position();
            }
            None
        };
        let color_channel_count = v.read_u32()?;
        proof {
            crate::bytes::lemma_subrange_join(old(v).data(), p0, prev, v.position());
            acc = acc + spec_be32(color_channel_count);
            prev = v.position();
        }
        let color_channel_flags = read_be32_array(v, color_channel_count as usize)?;
        proof {
            crate::bytes::lemma_subrange_join(old(v).data(), p0, prev, v.position());
            acc = acc + spec_be32_array(color_channel_flags@);
            prev = v.position();
        }
        let tev_stage_count = v.read_u32()?;
        proof {
            crate::bytes::lemma_subrange_join(old(v).data(), p0, prev, v.position());
            acc = acc + spec_be32(tev_stage_count);
            prev = v.position();
        }
        let tev_stages = read_tev_stage_array(v, tev_stage_count as usize)?;
        proof {
            crate::bytes::lemma_subrange_join(old(v).data(), p0, prev, v.position());
            acc = acc + spec_tev_stage_array(tev_stages@);
            prev = v.position();
        }
        let tev_stage_texture_inputs = read_tev_input_array(v, tev_stage_count as usize)?;
        proof {
            crate::bytes::lemma_subrange_join(old(v).data(), p0, prev, v.position());
            acc = acc + spec_tev_input_array(tev_stage_texture_inputs@);
            prev = v.position();
        }
        let texgen_count = v.read_u32()?;
        proof {
            crate::bytes::lemma_subrange_join(old(v).data(), p0, prev, v.position());
            acc = acc + spec_be32(texgen_count);
            prev = v.position();
        }
        let texgen_flags = read_be32_array(v, texgen_count as usize)?;
        proof {
            crate::bytes::lemma_subrange_join(old(v).data(), p0, prev, v.position());
            acc = acc + spec_be32_array(texgen_flags@);
            prev = v.position();
        }
        let anim_size = v.read_u32()?;
        proof {
            crate::bytes::lemma_subrange_join(old(v).data(), p0, prev, v.position());
            acc = acc + spec_be32(anim_size);
            prev = v.position();
        }
        let uv_animation_count = v.read_u32()?;
        proof {
            crate::bytes::lemma_subrange_join(old(v).data(), p0, prev, v.position());
            acc = acc + spec_be32(uv_animation_count);
            prev = v.position();
        }
        let uv_start = v.position_exec();
        let uv_animations = read_uv_anim_array(v, uv_animation_count as usize)?;
        let uv_end = v.position_exec();
        proof {
            lemma_uv_anim_array_len(uv_animations@);
            crate::bytes::lemma_subrange_join(old(v).data(), p0, prev, v.position());
            acc = acc + spec_uv_anim_array(uv_animations@);
            prev = v.position();
        }
        if (anim_size as usize) != (uv_end - uv_start) + 4 {
            return Err(FormatError::SizeMismatch);
        }
        let m = CmdlMaterial {
            flags,
            texture_indicies,
            vertex_attribute_flags,
            group_index,
            konsts,
            blend_destination_factor,
            blend_source_factor,
            reflection_indirect_texture_slot_index,
            color_channel_flags,
            tev_stages,
            tev_stage_texture_inputs,
            texgen_flags,
            uv_animations,
        };
        proof {
            m.lemma_size();
            assert(m.spec_serialize() == acc);
            assert(m.spec_serialize() == old(v).data().subrange(p0, v.position()));
            assert(m.spec_size() == v.position() - p0);
            assert(m.wf());
        }
        Ok(m)
    }
}



/// Concatenated serialization of a sequence of materials.
pub open spec fn spec_material_array(s: Seq<CmdlMaterial>) -> Seq<u8>
    decreases s.len(),
{
    if s.len() == 0 {
        Seq::empty()
    } else {
        spec_material_array(s.drop_last()) + s.last().spec_serialize()
    }
}

/// Total serialized length of a sequence of materials.
pub open spec fn spec_material_array_size(s: Seq<CmdlMaterial>) -> int
    decreases s.len(),
{
    if s.len() == 0 {
        0
    } else {
        spec_material_array_size(s.drop_last()) + s.last().spec_size()
    }
}

pub proof fn lemma_material_array_len(s: Seq<CmdlMaterial>)
    ensures
        spec_material_array(s).len() == spec_material_array_size(s),
        40 * s.len() <= spec_material_array_size(s),
    decreases s.len(),
{
    if s.len() > 0 {
        lemma_material_array_len(s.drop_last());
        s.last().lemma_size();
        lemma_uv_anim_array_len(s.last().uv_animations@);
    }
}

/// A prefix of a material list never serializes longer than the whole.
pub proof fn lemma_material_size_take_le(s: Seq<CmdlMaterial>, i: int)
    requires
        0 <= i <= s.len(),
    ensures
        spec_material_array_size(s.take(i)) <= spec_material_array_size(s),
    decreases s.len() - i,
{
    if i < s.len() {
        assert(s.take(i + 1).drop_last() =~= s.take(i));
        assert(s.take(i + 1).last() == s[i]);
        assert(spec_material_array_size(s.take(i + 1)) == spec_material_array_size(s.take(i))
            + s[i].spec_size());
        s[i].lemma_size();
        lemma_uv_anim_array_len(s[i].uv_animations@);
        lemma_material_size_take_le(s, i + 1);
    } else {
        assert(s.take(i) =~= s);
    }
}

/// The konst-color block is present in a material's layout exactly when the
/// current flags word carries bit 0x8: two materials identical but for that
/// bit measure apart by exactly the block, so a patch that toggles the bit
/// after parse re-measures and re-writes under the new value.
pub proof fn lemma_konst_flag_controls_layout(m1: CmdlMaterial, m2: CmdlMaterial)
    requires
        m1.flags & 0x8 != 0,
        m2.flags & 0x8 == 0,
        m1.flags & 0x400 == m2.flags & 0x400,
        m1.texture_indicies@ == m2.texture_indicies@,
        m1.konsts@ == m2.konsts@,
        m1.color_channel_flags@ == m2.color_channel_flags@,
        m1.tev_stages@ == m2.tev_stages@,
        m1.tev_stage_texture_inputs@ == m2.tev_stage_texture_inputs@,
        m1.texgen_flags@ == m2.texgen_flags@,
        m1.uv_animations@ == m2.uv_animations@,
    ensures
        m1.spec_size() == m2.spec_size() + 4 + 4 * m1.konsts@.len(),
{
}

/// The indirect-texture slot is present in a material's layout exactly when
/// the current flags word carries bit 0x400.
pub proof fn lemma_indirect_slot_flag_controls_layout(m1: CmdlMaterial, m2: CmdlMaterial)
    requires
        m1.flags & 0x400 != 0,
        m2.flags & 0x400 == 0,
        m1.flags & 0x8 == m2.flags & 0x8,
        m1.texture_indicies@ == m2.texture_indicies@,
        m1.konsts@ == m2.konsts@,
        m1.color_channel_flags@ == m2.color_channel_flags@,
        m1.tev_stages@ == m2.tev_stages@,
        m1.tev_stage_texture_inputs@ == m2.tev_stage_texture_inputs@,
        m1.texgen_flags@ == m2.texgen_flags@,
        m1.uv_animations@ == m2.uv_animations@,
    ensures
        m1.spec_size() == m2.spec_size() + 4,
{
}

/// The geometry material set held at the front of a room's world-geometry
/// section: texture ids, material end offsets, and the materials themselves.
/// The end-offset table and the material list share one count field.
#[derive(Debug, Clone, PartialEq)]
pub struct CmdlMaterialSet {
    pub texture_ids: Vec<u32>,
    pub material_ends: Vec<u32>,
    pub materials: Vec<CmdlMaterial>,
}

impl CmdlMaterialSet {
    /// Structural validity: the shared count field forces the end-offset
    /// table parallel to the material list, every material is valid, and
    /// the whole record fits the format's 32-bit size fields.
    pub open spec fn wf(self) -> bool {
        &&& self.material_ends@.len() == self.materials@.len()
        &&& (forall|i: int|
            0 <= i < self.materials@.len() ==> (#[trigger] self.materials@[i]).wf())
        &&& self.spec_size() <= 0xFFFF_FF00
    }

    /// The exact serialized length, counts re-derived from the live arrays.
    pub open spec fn spec_size(self) -> int {
        4 + 4 * self.texture_ids@.len() + 4 + 4 * self.material_ends@.len()
            + spec_material_array_size(self.materials@)
    }

    /// Exact serialized form: texture-id count and ids, material count,
    /// end offsets, then every material, with no count of its own.
    pub open spec fn spec_serialize(self) -> Seq<u8> {
        spec_be32(self.texture_ids@.len() as u32) + spec_be32_array(self.texture_ids@) + spec_be32(
            self.material_ends@.len() as u32,
        ) + spec_be32_array(self.material_ends@) + spec_material_array(self.materials@)
    }

    /// The serialized form is exactly as long as the measured size says.
    pub proof fn lemma_size(self)
        ensures
            self.spec_serialize().len() == self.spec_size(),
            spec_material_array_size(self.materials@) >= 0,
    {
        crate::bytes::lemma_be32_array_len(self.texture_ids@);
        crate::bytes::lemma_be32_array_len(self.material_ends@);
        lemma_material_array_len(self.materials@);
    }

    pub fn read_from(v: &mut BinaryView) -> (r: Result<CmdlMaterialSet, FormatError>)
        requires
            old(v).wf(),
            old(v).data().len() <= 0xFFFF_FF00,
        ensures
            final(v).wf(),
            final(v).data() == old(v).data(),
            r matches Ok(m) ==> {
                &&& m.wf()
                &&& final(v).position() == old(v).position() + m.spec_size()
                &&& m.spec_serialize() == old(v).data().subrange(
                    old(v).position(),
                    final(v).position(),
                )
            },
            r matches Err(e) ==> e == FormatError::Truncated || e
                == FormatError::UnknownVariantTag || e == FormatError::SizeMismatch,
    {
        let ghost p0 = v.position();
        let texture_count = v.read_u32()?;
        let ghost mut acc = spec_be32(texture_count);
        let ghost mut prev = v.position();
        let texture_ids = read_be32_array(v, texture_count as usize)?;
        proof {
            crate::bytes::lemma_subrange_join(old(v).data(), p0, prev, v.position());
            acc = acc + spec_be32_array(texture_ids@);
            prev = v.position();
        }
        let material_count = v.read_u32()?;
        proof {
            crate::bytes::lemma_subrange_join(old(v).data(), p0, prev, v.position());
            acc = acc + spec_be32(material_count);
            prev = v.position();
        }
        let material_ends = read_be32_array(v, material_count as usize)?;
        proof {
            crate::bytes::lemma_subrange_join(old(v).data(), p0, prev, v.position());
            acc = acc + spec_be32_array(material_ends@);
            prev = v.position();
        }
        let mut materials: Vec<CmdlMaterial> = Vec::new();
        let n = material_count as usize;
        let mut i: usize = 0;
        while i < n
            invariant
                old(v).wf(),
                old(v).data().len() <= 0xFFFF_FF00,
                v.wf(),
                v.data() == old(v).data(),
                0 <= prev <= v.position(),
                i <= n,
                materials@.len() == i,
                v.position() == prev + spec_material_array_size(materials@),
                spec_material_array(materials@) == old(v).data().subrange(prev, v.position()),
                forall|j: int| 0 <= j < i ==> (#[trigger] materials@[j]).wf(),
            decreases n - i,
        {
            let ghost pos0 = v.position();
            let ghost a0 = materials@;
            let m = match CmdlMaterial::read_from(v) {
                Ok(m) => m,
                Err(e) => {
                    return Err(e);
                },
            };
            materials.push(m);
            proof {
                lemma_material_array_len(a0);
                m.lemma_size();
                lemma_uv_anim_array_len(m.uv_animations@);
                assert(materials@ =~= a0.push(m));
                assert(materials@.drop_last() =~= a0);
                assert(materials@.last() == m);
                assert(spec_material_array(materials@) == spec_material_array(a0)
                    + m.spec_serialize());
                assert(spec_material_array_size(materials@) == spec_material_array_size(a0)
                    + m.spec_size());
                crate::bytes::lemma_subrange_join(old(v).data(), prev, pos0, v.position());
            }
            i = i + 1;
        }
        proof {
            crate::bytes::lemma_subrange_join(old(v).data(), p0, prev, v.position());
            acc = acc + spec_material_array(materials@);
            prev = v.position();
        }
        let set = CmdlMaterialSet { texture_ids, material_ends, materials };
        proof {
            set.lemma_size();
            assert(set.spec_serialize() == acc);
            assert(set.spec_serialize() == old(v).data().subrange(p0, v.position()));
            assert(set.spec_size() == v.position() - p0);
            assert(set.wf());
        }
        Ok(set)
    }

    /// The exact number of bytes [`Self::write_to`] emits.
    pub fn size(&self) -> (n: usize)
        requires
            self.wf(),
        ensures
            n == self.spec_size(),
            n == self.spec_serialize().len(),
    {
        proof {
            self.lemma_size();
        }
        let mut sum: usize = 4 + 4 * self.texture_ids.len();
        sum = sum + 4 + 4 * self.material_ends.len();
        let mut i: usize = 0;
        let mut msum: usize = 0;
        while i < self.materials.len()
            invariant
                self.wf(),
                i <= self.materials@.len(),
                msum == spec_material_array_size(self.materials@.take(i as int)),
            decreases self.materials@.len() - i,
        {
            let m = &self.materials[i];
            let k = m.size();
            proof {
                assert(self.materials@.take(i + 1).drop_last() =~= self.materials@.take(i as int));
                assert(self.materials@.take(i + 1).last() == self.materials@[i as int]);
                assert(spec_material_array_size(self.materials@.take(i + 1))
                    == spec_material_array_size(self.materials@.take(i as int))
                    + self.materials@[i as int].spec_size());
                lemma_material_size_take_le(self.materials@, i + 1);
                self.lemma_size();
            }
            msum = msum + k;
            i = i + 1;
        }
        proof {
            assert(self.materials@.take(self.materials@.len() as int) =~= self.materials@);
        }
        sum + msum
    }

    pub fn write_to(&self, out: &mut Vec<u8>) -> (n: usize)
        requires
            self.wf(),
        ensures
            final(out)@ == old(out)@ + self.spec_serialize(),
            n == self.spec_serialize().len(),
    {
        proof {
            self.lemma_size();
        }
        let n = self.size();
        let ghost base = out@;
        push_be32(out, self.texture_ids.len() as u32);
        push_be32_array(out, &self.texture_ids);
        push_be32(out, self.material_ends.len() as u32);
        push_be32_array(out, &self.material_ends);
        let ghost mut acc = spec_be32(self.texture_ids@.len() as u32) + spec_be32_array(
            self.texture_ids@,
        ) + spec_be32(self.material_ends@.len() as u32) + spec_be32_array(self.material_ends@);
        proof {
            assert(out@ == base + acc);
        }
        let mut i: usize = 0;
        let ghost mstart = out@.len() as int;
        while i < self.materials.len()
            invariant
                self.wf(),
                i <= self.materials@.len(),
                out@ == base + acc + spec_material_array(self.materials@.take(i as int)),
            decreases self.materials@.len() - i,
        {
            let m = &self.materials[i];
            m.write_to(out);
            proof {
                assert(self.materials@.take(i + 1).drop_last() =~= self.materials@.take(i as int));
                assert(self.materials@.take(i + 1).last() == self.materials@[i as int]);
                assert(spec_material_array(self.materials@.take(i + 1)) == spec_material_array(
                    self.materials@.take(i as int),
                ) + self.materials@[i as int].spec_serialize());
                assert(out@ =~= base + acc + spec_material_array(self.materials@.take(i + 1)));
            }
            i = i + 1;
        }
        proof {
            assert(self.materials@.take(self.materials@.len() as int) =~= self.materials@);
            assert(out@ == base + acc + spec_material_array(self.materials@));
            assert(acc + spec_material_array(self.materials@) =~= self.spec_serialize());
            assert(out@ =~= base + self.spec_serialize());
        }
        n
    }
}



/// Magic word of a standalone model resource.
pub const CMDL_MAGIC: u32 = 0xDEADBABE;

/// Version word of a standalone model resource.
pub const CMDL_VERSION: u32 = 2;

/// One opaque data section of a model resource, carried through unread.
#[derive(Debug, Clone, PartialEq)]
pub struct CmdlDataSection {
    pub remainder: Vec<u8>,
}

impl CmdlDataSection {
    /// Exact serialized form: the bytes themselves; the length lives in
    /// the model's size table.
    pub open spec fn spec_serialize(self) -> Seq<u8> {
        self.remainder@
    }

    pub fn read_from(v: &mut BinaryView, size: u32) -> (r: Result<CmdlDataSection, FormatError>)
        requires
            old(v).wf(),
        ensures
            final(v).wf(),
            final(v).data() == old(v).data(),
            r matches Ok(d) ==> {
                &&& d.remainder@.len() == size
                &&& final(v).position() == old(v).position() + size
                &&& d.spec_serialize() == old(v).data().subrange(
                    old(v).position(),
                    final(v).position(),
                )
            },
            r matches Err(e) ==> e == FormatError::Truncated,
    {
        let remainder = v.take_vec(size as usize)?;
        Ok(CmdlDataSection { remainder })
    }

    /// The exact number of bytes [`Self::write_to`] emits.
    pub fn size(&self) -> (n: usize)
        ensures
            n == self.spec_serialize().len(),
    {
        self.remainder.len()
    }

    pub fn write_to(&self, out: &mut Vec<u8>) -> (n: usize)
        ensures
            final(out)@ == old(out)@ + self.spec_serialize(),
            n == self.spec_serialize().len(),
    {
        push_bytes(out, self.remainder.as_slice());
        self.remainder.len()
    }
}

/// Concatenated serialization of a sequence of material sets.
pub open spec fn spec_set_array(s: Seq<CmdlMaterialSet>) -> Seq<u8>
    decreases s.len(),
{
    if s.len() == 0 {
        Seq::empty()
    } else {
        spec_set_array(s.drop_last()) + s.last().spec_serialize()
    }
}

/// The re-derived size table of a sequence of material sets.
pub open spec fn spec_set_table(s: Seq<CmdlMaterialSet>) -> Seq<u8>
    decreases s.len(),
{
    if s.len() == 0 {
        Seq::empty()
    } else {
        spec_set_table(s.drop_last()) + spec_be32(s.last().spec_size() as u32)
    }
}

/// Total measured size of a sequence of material sets.
pub open spec fn spec_set_total(s: Seq<CmdlMaterialSet>) -> int
    decreases s.len(),
{
    if s.len() == 0 {
        0
    } else {
        spec_set_total(s.drop_last()) + s.last().spec_size()
    }
}

pub proof fn lemma_set_arrays(s: Seq<CmdlMaterialSet>)
    requires
        forall|i: int| 0 <= i < s.len() ==> (#[trigger] s[i]).wf(),
    ensures
        spec_set_table(s).len() == 4 * s.len(),
        spec_set_array(s).len() == spec_set_total(s),
        spec_set_total(s) >= 0,
    decreases s.len(),
{
    if s.len() > 0 {
        assert forall|i: int| 0 <= i < s.drop_last().len() implies (#[trigger] s.drop_last()[i]).wf() by {
            assert(s.drop_last()[i] == s[i]);
        }
        lemma_set_arrays(s.drop_last());
        assert(s.last() == s[s.len() - 1]);
        s.last().lemma_size();
        lemma_material_array_len(s.last().materials@);
    }
}

/// A prefix of the set list never measures more than the whole.
pub proof fn lemma_set_total_take_le(s: Seq<CmdlMaterialSet>, i: int)
    requires
        0 <= i <= s.len(),
        forall|j: int| 0 <= j < s.len() ==> (#[trigger] s[j]).wf(),
    ensures
        spec_set_total(s.take(i)) <= spec_set_total(s),
    decreases s.len() - i,
{
    if i < s.len() {
        assert(s.take(i + 1).drop_last() =~= s.take(i));
        assert(s.take(i + 1).last() == s[i]);
        assert(spec_set_total(s.take(i + 1)) == spec_set_total(s.take(i)) + s[i].spec_size());
        s[i].lemma_size();
        lemma_material_array_len(s[i].materials@);
        lemma_set_total_take_le(s, i + 1);
    } else {
        assert(s.take(i) =~= s);
    }
}

/// Concatenated serialization of a sequence of opaque data sections.
pub open spec fn spec_data_array(s: Seq<CmdlDataSection>) -> Seq<u8>
    decreases s.len(),
{
    if s.len() == 0 {
        Seq::empty()
    } else {
        spec_data_array(s.drop_last()) + s.last().spec_serialize()
    }
}

/// The re-derived size table of a sequence of opaque data sections.
pub open spec fn spec_data_table(s: Seq<CmdlDataSection>) -> Seq<u8>
    decreases s.len(),
{
    if s.len() == 0 {
        Seq::empty()
    } else {
        spec_data_table(s.drop_last()) + spec_be32(s.last().remainder@.len() as u32)
    }
}

/// Total byte length of a sequence of opaque data sections.
pub open spec fn spec_data_total(s: Seq<CmdlDataSection>) -> int
    decreases s.len(),
{
    if s.len() == 0 {
        0
    } else {
        spec_data_total(s.drop_last()) + s.last().remainder@.len()
    }
}

pub proof fn lemma_data_arrays(s: Seq<CmdlDataSection>)
    ensures
        spec_data_table(s).len() == 4 * s.len(),
        spec_data_array(s).len() == spec_data_total(s),
        spec_data_total(s) >= 0,
    decreases s.len(),
{
    if s.len() > 0 {
        lemma_data_arrays(s.drop_last());
    }
}

/// A prefix of the data-section list never holds more bytes than the
/// whole.
pub proof fn lemma_data_total_take_le(s: Seq<CmdlDataSection>, i: int)
    requires
        0 <= i <= s.len(),
    ensures
        spec_data_total(s.take(i)) <= spec_data_total(s),
    decreases s.len() - i,
{
    if i < s.len() {
        assert(s.take(i + 1).drop_last() =~= s.take(i));
        assert(s.take(i + 1).last() == s[i]);
        assert(spec_data_total(s.take(i + 1)) == spec_data_total(s.take(i))
            + s[i].remainder@.len());
        lemma_data_total_take_le(s, i + 1);
    } else {
        assert(s.take(i) =~= s);
    }
}

/// A standalone model resource, modeled to the depth this pipeline needs:
/// header words, the axis-aligned box as raw float words, the two size
/// tables (re-derived on write), alignment padding, the material sets, and
/// the remaining data sections carried as opaque bytes.
#[derive(Debug, Clone, PartialEq)]
pub struct Cmdl {
    pub flags: u32,
    pub maab: Vec<u32>,
    pub material_sets: Vec<CmdlMaterialSet>,
    pub data_sections: Vec<CmdlDataSection>,
}

impl Cmdl {
    /// Structural validity: the box holds six words, every material set is
    /// valid, and the record fits the format's 32-bit size fields.
    pub open spec fn wf(self) -> bool {
        &&& self.maab@.len() == 6
        &&& (forall|i: int|
            0 <= i < self.material_sets@.len() ==> (#[trigger] self.material_sets@[i]).wf())
        &&& self.spec_size() <= 0xFFFF_FF00
    }

    /// Byte offset where the header and both size tables end.
    pub open spec fn spec_table_end(self) -> int {
        44 + 4 * (self.material_sets@.len() as int) + 4 * (self.data_sections@.len() as int)
    }

    /// The exact serialized length.
    pub open spec fn spec_size(self) -> int {
        let te = self.spec_table_end();
        te + pad32_len(te) + spec_set_total(self.material_sets@) + spec_data_total(
            self.data_sections@,
        )
    }

    /// Exact serialized form.  The stored section count spans both tables;
    /// both are re-derived from the live lists on every write.
    pub open spec fn spec_serialize(self) -> Seq<u8> {
        spec_be32(CMDL_MAGIC) + spec_be32(CMDL_VERSION) + spec_be32(self.flags) + spec_be32_array(
            self.maab@,
        ) + spec_be32((self.material_sets@.len() + self.data_sections@.len()) as u32) + spec_be32(
            self.material_sets@.len() as u32,
        ) + spec_set_table(self.material_sets@) + spec_data_table(self.data_sections@)
            + zero_bytes(pad32_len(self.spec_table_end())) + spec_set_array(self.material_sets@)
            + spec_data_array(self.data_sections@)
    }

    /// The serialized form is exactly as long as the measured size says.
    pub proof fn lemma_size(self)
        requires
            self.wf(),
        ensures
            self.spec_serialize().len() == self.spec_size(),
            spec_set_total(self.material_sets@) >= 0,
            spec_data_total(self.data_sections@) >= 0,
    {
        crate::bytes::lemma_be32_array_len(self.maab@);
        lemma_set_arrays(self.material_sets@);
        lemma_data_arrays(self.data_sections@);
    }

    /// Decode a whole model resource from its byte image.
    #[verifier::rlimit(100)]
    #[verifier::spinoff_prover]
    pub fn read_from(bytes: &[u8]) -> (r: Result<Cmdl, FormatError>)
        requires
            bytes@.len() <= 0xFFFF_FF00,
        ensures
            r matches Ok(c) ==> {
                &&& c.wf()
                &&& c.spec_size() <= bytes@.len()
                &&& c.spec_serialize() == bytes@.subrange(0, c.spec_size())
            },
            (bytes@.len() >= 4 && crate::bytes::spec_u32_at(bytes@, 0) != CMDL_MAGIC) ==> r
                == Err::<Cmdl, FormatError>(FormatError::UnexpectedMagic),
    {
        let mut v = BinaryView::new(bytes);
        let magic = match v.read_u32() {
            Ok(x) => x,
            Err(e) => {
                return Err(e);
            },
        };
        if magic != CMDL_MAGIC {
            return Err(FormatError::UnexpectedMagic);
        }
        let version = match v.read_u32() {
            Ok(x) => x,
            Err(e) => {
                return Err(e);
            },
        };
        if version != CMDL_VERSION {
            return Err(FormatError::UnexpectedVersion);
        }
        let flags = match v.read_u32() {
            Ok(x) => x,
            Err(e) => {
                return Err(e);
            },
        };
        let maab = match read_be32_array(&mut v, 6) {
            Ok(x) => x,
            Err(e) => {
                return Err(e);
            },
        };
        let data_section_count = match v.read_u32() {
            Ok(x) => x,
            Err(e) => {
                return Err(e);
            },
        };
        let material_set_count = match v.read_u32() {
            Ok(x) => x,
            Err(e) => {
                return Err(e);
            },
        };
        if material_set_count > data_section_count {
            return Err(FormatError::SizeMismatch);
        }
        let set_sizes = match read_be32_array(&mut v, material_set_count as usize) {
            Ok(x) => x,
            Err(e) => {
                return Err(e);
            },
        };
        let data_sizes = match read_be32_array(
            &mut v,
            (data_section_count - material_set_count) as usize,
        ) {
            Ok(x) => x,
            Err(e) => {
                return Err(e);
            },
        };
        let table_end = v.position_exec();
        let pad = pad32_amount(table_end);
        match v.read_zeros(pad) {
            Ok(u) => u,
            Err(e) => {
                return Err(e);
            },
        };
        let nsets = material_set_count as usize;
        let mut material_sets: Vec<CmdlMaterialSet> = Vec::new();
        let ghost sstart = v.position();
        let mut i: usize = 0;
        while i < nsets
            invariant
                v.wf(),
                v.data() == bytes@,
                bytes@.len() <= 0xFFFF_FF00,
                bytes@.len() >= 4,
                crate::bytes::spec_u32_at(bytes@, 0) == CMDL_MAGIC,
                0 <= sstart <= v.position(),
                i <= nsets,
                nsets == set_sizes@.len(),
                material_sets@.len() == i,
                v.position() == sstart + spec_set_total(material_sets@),
                spec_set_array(material_sets@) == bytes@.subrange(sstart, v.position()),
                spec_set_table(material_sets@) == spec_be32_array(set_sizes@.take(i as int)),
                forall|j: int| 0 <= j < i ==> (#[trigger] material_sets@[j]).wf(),
            decreases nsets - i,
        {
            let ghost pos0 = v.position();
            let ghost s0 = material_sets@;
            let declared = set_sizes[i];
            let start_pos = v.position_exec();
            let set = match CmdlMaterialSet::read_from(&mut v) {
                Ok(s) => s,
                Err(e) => {
                    return Err(e);
                },
            };
            let end_pos = v.position_exec();
            proof {
                set.lemma_size();
                lemma_material_array_len(set.materials@);
            }
            if end_pos - start_pos != declared as usize {
                return Err(FormatError::SizeMismatch);
            }
            material_sets.push(set);
            proof {
                assert(material_sets@ =~= s0.push(material_sets@.last()));
                assert(material_sets@.drop_last() =~= s0);
                assert(spec_set_array(material_sets@) == spec_set_array(s0)
                    + material_sets@.last().spec_serialize());
                assert(spec_set_total(material_sets@) == spec_set_total(s0)
                    + material_sets@.last().spec_size());
                assert(spec_set_table(material_sets@) == spec_set_table(s0) + spec_be32(
                    material_sets@.last().spec_size() as u32,
                ));
                crate::bytes::lemma_subrange_join(bytes@, sstart, pos0, v.position());
                assert(set_sizes@.take(i + 1).drop_last() =~= set_sizes@.take(i as int));
                assert(set_sizes@.take(i + 1).last() == declared);
                assert(spec_be32_array(set_sizes@.take(i + 1)) == spec_be32_array(
                    set_sizes@.take(i as int),
                ) + spec_be32(declared));
                assert(material_sets@.last().spec_size() as u32 == declared);
            }
            i = i + 1;
        }
        let ndatas = data_sizes.len();
        let mut data_sections: Vec<CmdlDataSection> = Vec::new();
        let ghost dstart = v.position();
        let mut i2: usize = 0;
        while i2 < ndatas
            invariant
                v.wf(),
                v.data() == bytes@,
                bytes@.len() <= 0xFFFF_FF00,
                bytes@.len() >= 4,
                crate::bytes::spec_u32_at(bytes@, 0) == CMDL_MAGIC,
                0 <= dstart <= v.position(),
                i2 <= ndatas,
                ndatas == data_sizes@.len(),
                data_sections@.len() == i2,
                v.position() == dstart + spec_data_total(data_sections@),
                spec_data_array(data_sections@) == bytes@.subrange(dstart, v.position()),
                spec_data_table(data_sections@) == spec_be32_array(data_sizes@.take(i2 as int)),
            decreases ndatas - i2,
        {
            let ghost pos0 = v.position();
            let ghost d0 = data_sections@;
            let declared = data_sizes[i2];
            let sec = match CmdlDataSection::read_from(&mut v, declared) {
                Ok(s) => s,
                Err(e) => {
                    return Err(e);
                },
            };
            data_sections.push(sec);
            proof {
                assert(data_sections@ =~= d0.push(data_sections@.last()));
                assert(data_sections@.drop_last() =~= d0);
                assert(spec_data_array(data_sections@) == spec_data_array(d0)
                    + data_sections@.last().spec_serialize());
                assert(spec_data_total(data_sections@) == spec_data_total(d0)
                    + data_sections@.last().remainder@.len());
                assert(spec_data_table(data_sections@) == spec_data_table(d0) + spec_be32(
                    data_sections@.last().remainder@.len() as u32,
                ));
                crate::bytes::lemma_subrange_join(bytes@, dstart, pos0, v.position());
                assert(data_sizes@.take(i2 + 1).drop_last() =~= data_sizes@.take(i2 as int));
                assert(data_sizes@.take(i2 + 1).last() == declared);
                assert(spec_be32_array(data_sizes@.take(i2 + 1)) == spec_be32_array(
                    data_sizes@.take(i2 as int),
                ) + spec_be32(declared));
                assert(data_sections@.last().remainder@.len() as u32 == declared);
            }
            i2 = i2 + 1;
        }
        let c = Cmdl { flags, maab, material_sets, data_sections };
        proof {
            c.lemma_size();
            crate::bytes::lemma_be32_array_len(set_sizes@);
            crate::bytes::lemma_be32_array_len(data_sizes@);
            assert(set_sizes@.take(nsets as int) =~= set_sizes@);
            assert(data_sizes@.take(ndatas as int) =~= data_sizes@);
            assert((c.material_sets@.len() + c.data_sections@.len()) as u32
                == data_section_count);
            assert(c.spec_table_end() == table_end);
            let hdr = spec_be32(CMDL_MAGIC) + spec_be32(CMDL_VERSION) + spec_be32(flags)
                + spec_be32_array(maab@) + spec_be32(data_section_count) + spec_be32(
                material_set_count,
            );
            assert(hdr + spec_be32_array(set_sizes@) + spec_be32_array(data_sizes@)
                =~= bytes@.subrange(0, table_end as int));
            crate::bytes::lemma_subrange_join(bytes@, 0, table_end as int, sstart);
            crate::bytes::lemma_subrange_join(bytes@, 0, sstart, dstart);
            crate::bytes::lemma_subrange_join(bytes@, 0, dstart, v.position());
            assert(c.spec_serialize() == bytes@.subrange(0, v.position()));
            assert(c.spec_size() == v.position());
            assert(c.wf());
        }
        Ok(c)
    }

    /// The exact number of bytes [`Self::write_to`] emits.
    pub fn size(&self) -> (n: usize)
        requires
            self.wf(),
        ensures
            n == self.spec_size(),
            n == self.spec_serialize().len(),
    {
        proof {
            self.lemma_size();
        }
        let te = 44 + 4 * self.material_sets.len() + 4 * self.data_sections.len();
        let pad = pad32_amount(te);
        let mut sum: usize = te + pad;
        let mut i: usize = 0;
        while i < self.material_sets.len()
            invariant
                self.wf(),
                i <= self.material_sets@.len(),
                te == self.spec_table_end(),
                pad == pad32_len(self.spec_table_end()),
                sum == te + pad + spec_set_total(self.material_sets@.take(i as int)),
            decreases self.material_sets@.len() - i,
        {
            let k = self.material_sets[i].size();
            proof {
                assert(self.material_sets@.take(i + 1).drop_last() =~= self.material_sets@.take(
                    i as int,
                ));
                assert(self.material_sets@.take(i + 1).last() == self.material_sets@[i as int]);
                assert(spec_set_total(self.material_sets@.take(i + 1)) == spec_set_total(
                    self.material_sets@.take(i as int),
                ) + self.material_sets@[i as int].spec_size());
                lemma_set_total_take_le(self.material_sets@, i + 1);
                lemma_data_arrays(self.data_sections@);
                self.lemma_size();
            }
            sum = sum + k;
            i = i + 1;
        }
        proof {
            assert(self.material_sets@.take(self.material_sets@.len() as int)
                =~= self.material_sets@);
        }
        let mut i2: usize = 0;
        while i2 < self.data_sections.len()
            invariant
                self.wf(),
                i2 <= self.data_sections@.len(),
                te == self.spec_table_end(),
                pad == pad32_len(self.spec_table_end()),
                sum == te + pad + spec_set_total(self.material_sets@) + spec_data_total(
                    self.data_sections@.take(i2 as int),
                ),
            decreases self.data_sections@.len() - i2,
        {
            let k = self.data_sections[i2].size();
            proof {
                assert(self.data_sections@.take(i2 + 1).drop_last() =~= self.data_sections@.take(
                    i2 as int,
                ));
                assert(self.data_sections@.take(i2 + 1).last() == self.data_sections@[i2 as int]);
                assert(spec_data_total(self.data_sections@.take(i2 + 1)) == spec_data_total(
                    self.data_sections@.take(i2 as int),
                ) + self.data_sections@[i2 as int].remainder@.len());
                lemma_data_total_take_le(self.data_sections@, i2 + 1);
                lemma_set_arrays(self.material_sets@);
                self.lemma_size();
            }
            sum = sum + k;
            i2 = i2 + 1;
        }
        proof {
            assert(self.data_sections@.take(self.data_sections@.len() as int)
                =~= self.data_sections@);
        }
        sum
    }

    #[verifier::rlimit(100)]
    #[verifier::spinoff_prover]
    pub fn write_to(&self, out: &mut Vec<u8>) -> (n: usize)
        requires
            self.wf(),
        ensures
            final(out)@ == old(out)@ + self.spec_serialize(),
            n == self.spec_serialize().len(),
    {
        proof {
            self.lemma_size();
        }
        let n = self.size();
        let ghost base = out@;
        push_be32(out, CMDL_MAGIC);
        push_be32(out, CMDL_VERSION);
        push_be32(out, self.flags);
        push_be32_array(out, &self.maab);
        push_be32(out, (self.material_sets.len() + self.data_sections.len()) as u32);
        push_be32(out, self.material_sets.len() as u32);
        let ghost mut acc = spec_be32(CMDL_MAGIC) + spec_be32(CMDL_VERSION) + spec_be32(
            self.flags,
        ) + spec_be32_array(self.maab@) + spec_be32(
            (self.material_sets@.len() + self.data_sections@.len()) as u32,
        ) + spec_be32(self.material_sets@.len() as u32);
        proof {
            assert(out@ == base + acc);
        }
        let mut i: usize = 0;
        while i < self.material_sets.len()
            invariant
                self.wf(),
                i <= self.material_sets@.len(),
                out@ == base + acc + spec_set_table(self.material_sets@.take(i as int)),
            decreases self.material_sets@.len() - i,
        {
            proof {
                lemma_set_total_take_le(self.material_sets@, i + 1);
                assert(self.material_sets@.take(i + 1).drop_last() =~= self.material_sets@.take(
                    i as int,
                ));
                assert(self.material_sets@.take(i + 1).last() == self.material_sets@[i as int]);
                assert(spec_set_total(self.material_sets@.take(i + 1)) == spec_set_total(
                    self.material_sets@.take(i as int),
                ) + self.material_sets@[i as int].spec_size());
                lemma_data_arrays(self.data_sections@);
                self.lemma_size();
            }
            let k = self.material_sets[i].size();
            push_be32(out, k as u32);
            proof {
                assert(spec_set_table(self.material_sets@.take(i + 1)) == spec_set_table(
                    self.material_sets@.take(i as int),
                ) + spec_be32(self.material_sets@[i as int].spec_size() as u32));
                assert(out@ =~= base + acc + spec_set_table(self.material_sets@.take(i + 1)));
            }
            i = i + 1;
        }
        proof {
            assert(self.material_sets@.take(self.material_sets@.len() as int)
                =~= self.material_sets@);
            acc = acc + spec_set_table(self.material_sets@);
            assert(out@ == base + acc);
        }
        let mut i2: usize = 0;
        while i2 < self.data_sections.len()
            invariant
                self.wf(),
                i2 <= self.data_sections@.len(),
                out@ == base + acc + spec_data_table(self.data_sections@.take(i2 as int)),
            decreases self.data_sections@.len() - i2,
        {
            proof {
                lemma_data_total_take_le(self.data_sections@, i2 + 1);
                assert(self.data_sections@.take(i2 + 1).drop_last() =~= self.data_sections@.take(
                    i2 as int,
                ));
                assert(self.data_sections@.take(i2 + 1).last() == self.data_sections@[i2 as int]);
                assert(spec_data_total(self.data_sections@.take(i2 + 1)) == spec_data_total(
                    self.data_sections@.take(i2 as int),
                ) + self.data_sections@[i2 as int].remainder@.len());
                lemma_set_arrays(self.material_sets@);
                self.lemma_size();
            }
            let k = self.data_sections[i2].size();
            push_be32(out, k as u32);
            proof {
                assert(spec_data_table(self.data_sections@.take(i2 + 1)) == spec_data_table(
                    self.data_sections@.take(i2 as int),
                ) + spec_be32(self.data_sections@[i2 as int].remainder@.len() as u32));
                assert(out@ =~= base + acc + spec_data_table(self.data_sections@.take(i2 + 1)));
            }
            i2 = i2 + 1;
        }
        let te = 44 + 4 * self.material_sets.len() + 4 * self.data_sections.len();
        let pad = pad32_amount(te);
        push_zeros(out, pad);
        proof {
            assert(self.data_sections@.take(self.data_sections@.len() as int)
                =~= self.data_sections@);
            acc = acc + spec_data_table(self.data_sections@) + zero_bytes(pad as int);
            assert(out@ == base + acc);
        }
        let mut i3: usize = 0;
        while i3 < self.material_sets.len()
            invariant
                self.wf(),
                i3 <= self.material_sets@.len(),
                out@ == base + acc + spec_set_array(self.material_sets@.take(i3 as int)),
            decreases self.material_sets@.len() - i3,
        {
            let set = &self.material_sets[i3];
            set.write_to(out);
            proof {
                assert(self.material_sets@.take(i3 + 1).drop_last() =~= self.material_sets@.take(
                    i3 as int,
                ));
                assert(self.material_sets@.take(i3 + 1).last() == self.material_sets@[i3 as int]);
                assert(spec_set_array(self.material_sets@.take(i3 + 1)) == spec_set_array(
                    self.material_sets@.take(i3 as int),
                ) + self.material_sets@[i3 as int].spec_serialize());
                assert(out@ =~= base + acc + spec_set_array(self.material_sets@.take(i3 + 1)));
            }
            i3 = i3 + 1;
        }
        proof {
            assert(self.material_sets@.take(self.material_sets@.len() as int)
                =~= self.material_sets@);
            acc = acc + spec_set_array(self.material_sets@);
            assert(out@ == base + acc);
        }
        let mut i4: usize = 0;
        while i4 < self.data_sections.len()
            invariant
                self.wf(),
                i4 <= self.data_sections@.len(),
                out@ == base + acc + spec_data_array(self.data_sections@.take(i4 as int)),
            decreases self.data_sections@.len() - i4,
        {
            let sec = &self.data_sections[i4];
            sec.write_to(out);
            proof {
                assert(self.data_sections@.take(i4 + 1).drop_last() =~= self.data_sections@.take(
                    i4 as int,
                ));
                assert(self.data_sections@.take(i4 + 1).last() == self.data_sections@[i4 as int]);
                assert(spec_data_array(self.data_sections@.take(i4 + 1)) == spec_data_array(
                    self.data_sections@.take(i4 as int),
                ) + self.data_sections@[i4 as int].spec_serialize());
                assert(out@ =~= base + acc + spec_data_array(self.data_sections@.take(i4 + 1)));
            }
            i4 = i4 + 1;
        }
        proof {
            assert(self.data_sections@.take(self.data_sections@.len() as int)
                =~= self.data_sections@);
            assert(out@ == base + acc + spec_data_array(self.data_sections@));
            assert(acc + spec_data_array(self.data_sections@) =~= self.spec_serialize());
            assert(out@ =~= base + self.spec_serialize());
        }
        n
    }
}


} // verus!
