use vstd::prelude::*;

verus! {

/// Specification-level mirror of `SpedError`, with mathematical payloads.
pub enum ErrorV {
    /// A record was shorter than the positions its handler must read.
    MissingField(Seq<u8>),
    /// A record type in the fixed "known but unimplemented" set was seen.
    NotImplemented(Seq<u8>),
    /// A `C181` row carried a CFOP value outside the modelled set.
    InvalidCfop(Seq<u8>),
    /// A composite key of the Contribuições accrual was absent from the
    /// ICMS/IPI summary at finalization.
    MissingKey((Seq<u8>, Seq<u8>, Seq<u8>)),
    /// A fixed-point sum or product exceeded the carrier type.
    ValueOverflow,
}

/// A fatal condition raised while aggregating one document.
///
/// Partial results are never returned alongside one of these: the whole
/// file's parse is abandoned, as the format's incomplete coverage policy
/// demands.
#[derive(Debug)]
pub enum SpedError {
    /// A record was shorter than the positions its handler must read; the
    /// payload is the record-type tag.
    MissingField(Vec<u8>),
    /// A record type in the fixed "known but unimplemented" set was seen.
    NotImplemented(Vec<u8>),
    /// A `C181` row carried a CFOP value outside the modelled set.
    InvalidCfop(Vec<u8>),
    /// A composite key of the Contribuições accrual was absent from the
    /// ICMS/IPI summary at finalization.
    MissingKey(Vec<u8>, Vec<u8>, Vec<u8>),
    /// A fixed-point sum or product exceeded the carrier type.
    ValueOverflow,
}

impl View for SpedError {
    type V = ErrorV;

    open spec fn view(&self) -> ErrorV {
        match self {
            SpedError::MissingField(t) => ErrorV::MissingField(t@),
            SpedError::NotImplemented(t) => ErrorV::NotImplemented(t@),
            SpedError::InvalidCfop(t) => ErrorV::InvalidCfop(t@),
            SpedError::MissingKey(b, m, c) => ErrorV::MissingKey((b@, m@, c@)),
            SpedError::ValueOverflow => ErrorV::ValueOverflow,
        }
    }
}

} // verus!
