use vstd::prelude::*;
use crate::error::{ErrorV, SpedError};
use crate::table::{CompositeMap, KeyV};
use crate::efd_icms_ipi::spec_icms_summary;
use crate::efd_contribuicoes::{ApuV, Apuracao, FlatV, FlatSummary, apu_view, spec_contrib_summary};

verus! {

// SPED documents arrive in a WINDOWS-1252 (ISO-8859-1 adjacent) byte
// encoding.  Decoding is the one outside computation of the pipeline; the
// aggregators then run on the decoded text's UTF-8 bytes.  Every byte the
// record grammar inspects -- pipes, newlines, digits, tags -- is ASCII, and
// the decoder maps an all-ASCII input to itself.

/// The UTF-8 bytes of the text that the WINDOWS-1252 decoder yields for
/// `bytes`: a function of the input bytes alone.
pub uninterp spec fn windows1252_utf8(bytes: Seq<u8>) -> Seq<u8>;

/// Relies on `encoding_rs::WINDOWS_1252.decode_without_bom_handling`: the
/// decoded text depends on the input bytes alone, and an input of ASCII
/// bytes only (below 128) is returned unchanged, as the decoder's ASCII
/// fast path shows.
#[verifier::external_body]
fn decode_windows1252(bytes: &Vec<u8>) -> (r: Vec<u8>)
    ensures
        r@ == windows1252_utf8(bytes@),
        (forall|i: int| 0 <= i < bytes@.len() ==> bytes@[i] < 128) ==> r@ == bytes@,
{
    let (text, _had_replacements) = encoding_rs::WINDOWS_1252.decode_without_bom_handling(
        bytes.as_slice(),
    );
    text.into_owned().into_bytes()
}

/// Aggregates one ICMS/IPI document from its raw file bytes: decodes the
/// WINDOWS-1252 encoding, then runs the verified pass over the decoded
/// text.
pub fn summarize_icms_ipi_file(file: &Vec<u8>) -> (r: Result<CompositeMap, SpedError>)
    ensures
        match r {
            Result::Ok(m) => spec_icms_summary(windows1252_utf8(file@)) == Result::<
                Seq<(KeyV, int)>,
                ErrorV,
            >::Ok(m@),
            Result::Err(e) => spec_icms_summary(windows1252_utf8(file@)) == Result::<
                Seq<(KeyV, int)>,
                ErrorV,
            >::Err(e@),
        },
{
    let text = decode_windows1252(file);
    crate::efd_icms_ipi::summarize(&text)
}

/// Aggregates one Contribuições document from its raw file bytes against a
/// completed ICMS/IPI summary: decodes the WINDOWS-1252 encoding, then runs
/// the verified pass and finalization over the decoded text.
pub fn summarize_contribuicoes_file(file: &Vec<u8>, table: &CompositeMap) -> (r: Result<
    (FlatSummary, Vec<Apuracao>, Vec<Apuracao>),
    SpedError,
>)
    ensures
        match r {
            Result::Ok(out) => spec_contrib_summary(windows1252_utf8(file@), table@) == Result::<
                (FlatV, Seq<ApuV>, Seq<ApuV>),
                ErrorV,
            >::Ok((out.0@, apu_view(out.1@), apu_view(out.2@))),
            Result::Err(e) => spec_contrib_summary(windows1252_utf8(file@), table@) == Result::<
                (FlatV, Seq<ApuV>, Seq<ApuV>),
                ErrorV,
            >::Err(e@),
        },
{
    let text = decode_windows1252(file);
    crate::efd_contribuicoes::summarize(&text, table)
}

} // verus!
