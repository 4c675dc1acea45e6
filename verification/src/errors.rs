use vstd::prelude::*;

verus! {

/// A structural or format error raised while decoding or re-encoding a
/// binary record.  Every variant is fatal for the unit of work that raised
/// it: the codec never substitutes defaults for malformed input.
#[derive(Clone, Copy, Debug, PartialEq, Eq, Structural)]
pub enum FormatError {
    /// The input ended before the record did.
    Truncated,
    /// A fixed magic word did not hold its expected constant.
    UnexpectedMagic,
    /// A fixed version word did not hold its expected constant.
    UnexpectedVersion,
    /// Alignment padding held a byte other than zero.
    NonzeroPadding,
    /// A variant-tagged sub-record carried a tag outside the closed set.
    UnknownVariantTag,
    /// The declared section-index fields of a container violate their
    /// required strict ordering.
    SectionIndexOrdering,
    /// A declared section-index field points past the section list.
    SectionIndexRange,
    /// A section was asked for under a typed kind other than the one it
    /// already holds.
    WrongSectionKind,
    /// A stored size field disagrees with the measured extent of the
    /// region it describes.
    SizeMismatch,
    /// A stored element count is not divisible as the layout demands.
    CountNotDivisible,
    /// Three edges referenced by one triangle do not close into a 3-cycle.
    BrokenTriangle,
    /// An index into a parallel array is out of range.
    IndexOutOfRange,
    /// A record's measured size exceeds what its 32-bit size fields can
    /// describe.
    OversizedRecord,
}

impl FormatError {
    /// A short human-readable description of the error.
    pub fn describe(&self) -> &'static str {
        match self {
            FormatError::Truncated => "input truncated",
            FormatError::UnexpectedMagic => "unexpected magic value",
            FormatError::UnexpectedVersion => "unexpected version value",
            FormatError::NonzeroPadding => "alignment padding is not zero",
            FormatError::UnknownVariantTag => "unknown variant tag",
            FormatError::SectionIndexOrdering => "section indices out of order",
            FormatError::SectionIndexRange => "section index out of range",
            FormatError::WrongSectionKind => "section holds a different typed kind",
            FormatError::SizeMismatch => "stored size disagrees with measured size",
            FormatError::CountNotDivisible => "stored count is not divisible",
            FormatError::BrokenTriangle => "triangle edges do not share endpoints",
            FormatError::IndexOutOfRange => "index out of range",
            FormatError::OversizedRecord => "record too large for its size fields",
        }
    }
}

} // verus!
