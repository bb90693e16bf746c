use vstd::prelude::*;

verus! {

/// The two families of failure a caller may want to tell apart.
#[derive(Clone, Copy, Debug, PartialEq, Eq, Structural)]
pub enum ErrorKind {
    /// The bytes being read are not a well-formed stream.
    Format,
    /// A value handed to a writer does not fit the format.
    Range,
}

/// Everything that can go wrong inside the codec.
#[derive(Clone, Copy, Debug, PartialEq, Eq, Structural)]
pub enum CodecError {
    /// The input ended in the middle of a value.
    UnexpectedEof,
    /// A variable-width integer was announced with more than eleven bits.
    WidthTooBig,
    /// A coded block places a coefficient past the sixty-fourth position.
    CoefficientOverrun,
    /// A repeat marker came before any cell, or repeats past the end of the map.
    BadRepeat,
    /// The stream does not start with the magic bytes and version.
    BadMagic,
    /// A frame record carries a type byte other than 0, 1 or 2.
    UnknownFrameType,
    /// A length prefix promises more bytes than its container holds.
    LengthOverrun,
    /// A motion points at a macroblock that is not inside the reference.
    PredictorOutside,
    /// An integer to write lies outside -2047..=2047.
    ValueRange,
    /// A quantized coefficient lies outside -1023..=1023.
    CoefficientRange,
    /// A motion vector component lies outside -7..=7.
    VectorRange,
    /// A section is too long for its 32-bit length prefix.
    RecordTooLarge,
}

impl CodecError {
    /// Whether the fault lies with the bytes read or with the value to write.
    pub open spec fn spec_kind(self) -> ErrorKind {
        match self {
            CodecError::ValueRange
            | CodecError::CoefficientRange
            | CodecError::VectorRange
            | CodecError::RecordTooLarge => ErrorKind::Range,
            _ => ErrorKind::Format,
        }
    }

    /// Whether the fault lies with the bytes read or with the value to write.
    #[verifier::when_used_as_spec(spec_kind)]
    pub fn kind(self) -> (k: ErrorKind)
        ensures
            k == self.spec_kind(),
    {
        match self {
            CodecError::ValueRange => ErrorKind::Range,
            CodecError::CoefficientRange => ErrorKind::Range,
            CodecError::VectorRange => ErrorKind::Range,
            CodecError::RecordTooLarge => ErrorKind::Range,
            _ => ErrorKind::Format,
        }
    }

    /// The text that describes each failure.
    pub open spec fn spec_message(self) -> Seq<char> {
        match self {
            CodecError::UnexpectedEof => "unexpected end of input"@,
            CodecError::WidthTooBig => "integer width is too big"@,
            CodecError::CoefficientOverrun => "coefficient position past the end of the block"@,
            CodecError::BadRepeat => "repeat marker without a cell to repeat"@,
            CodecError::BadMagic => "not an NRVC version 1 stream"@,
            CodecError::UnknownFrameType => "unknown frame type"@,
            CodecError::LengthOverrun => "length prefix exceeds the remaining input"@,
            CodecError::PredictorOutside => "motion vector leaves the reference frame"@,
            CodecError::ValueRange => "integer does not fit in eleven bits"@,
            CodecError::CoefficientRange => "coefficient does not fit in ten bits and a sign"@,
            CodecError::VectorRange => "motion vector outside the search window"@,
            CodecError::RecordTooLarge => "section too long for a 32-bit length"@,
        }
    }

    /// A short description for messages: the text of the failure.
    pub fn message(self) -> (s: &'static str)
        ensures
            s@ == self.spec_message(),
    {
        match self {
            CodecError::UnexpectedEof => "unexpected end of input",
            CodecError::WidthTooBig => "integer width is too big",
            CodecError::CoefficientOverrun => "coefficient position past the end of the block",
            CodecError::BadRepeat => "repeat marker without a cell to repeat",
            CodecError::BadMagic => "not an NRVC version 1 stream",
            CodecError::UnknownFrameType => "unknown frame type",
            CodecError::LengthOverrun => "length prefix exceeds the remaining input",
            CodecError::PredictorOutside => "motion vector leaves the reference frame",
            CodecError::ValueRange => "integer does not fit in eleven bits",
            CodecError::CoefficientRange => "coefficient does not fit in ten bits and a sign",
            CodecError::VectorRange => "motion vector outside the search window",
            CodecError::RecordTooLarge => "section too long for a 32-bit length",
        }
    }
}

} // verus!
