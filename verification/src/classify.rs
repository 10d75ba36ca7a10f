use vstd::prelude::*;
use crate::cnpj::{is_cnpj_valid, spec_cnpj_valid};
use crate::table::{bytes_eq, copy_bytes};
use crate::tokenize::seqs_of;

verus! {

// Classifying an input file by the fields of its first line: a valid
// taxpayer identifier at position 9 marks a Contribuições document (its
// fiscal period at position 7), one at position 7 marks an ICMS/IPI
// document (its period at position 5).  Once a period is known, later files
// must match it to take a role.  A first line too short for a position
// simply takes no role.

/// A file's role among the loaded set, and the fiscal period carried
/// forward.
pub struct ClassV {
    pub is_contribuicoes: bool,
    pub is_icms_ipi: bool,
    pub competencia: Option<Seq<u8>>,
}

pub struct Classification {
    pub is_contribuicoes: bool,
    pub is_icms_ipi: bool,
    pub competencia: Option<Vec<u8>>,
}

impl View for Classification {
    type V = ClassV;

    open spec fn view(&self) -> ClassV {
        ClassV {
            is_contribuicoes: self.is_contribuicoes,
            is_icms_ipi: self.is_icms_ipi,
            competencia: match self.competencia {
                Option::Some(ref c) => Option::Some(c@),
                Option::None => Option::None,
            },
        }
    }
}

/// Whether a first line marks a Contribuições document at all.
pub open spec fn contrib_candidate(f: Seq<Seq<u8>>) -> bool {
    f.len() > 9 && spec_cnpj_valid(f[9])
}

/// Whether a first line marks an ICMS/IPI document at all.
pub open spec fn icms_candidate(f: Seq<Seq<u8>>) -> bool {
    f.len() > 7 && spec_cnpj_valid(f[7])
}

/// What classifying a first line against the period seen so far yields.
/// With no period yet, any candidate takes its role and donates its period
/// (an ICMS/IPI candidate's period wins when a line is both).  With a
/// period, a candidate takes its role only when its own period matches.
pub open spec fn spec_classify(f: Seq<Seq<u8>>, comp: Option<Seq<u8>>) -> ClassV {
    match comp {
        Option::None => ClassV {
            is_contribuicoes: contrib_candidate(f),
            is_icms_ipi: icms_candidate(f),
            competencia: if icms_candidate(f) {
                Option::Some(f[5])
            } else if contrib_candidate(f) {
                Option::Some(f[7])
            } else {
                Option::None
            },
        },
        Option::Some(c) => ClassV {
            is_contribuicoes: contrib_candidate(f) && f[7] == c,
            is_icms_ipi: icms_candidate(f) && f[5] == c,
            competencia: Option::Some(c),
        },
    }
}

/// Classifies one first line, carrying the fiscal period forward.
pub fn classify_first_line(fields: &Vec<Vec<u8>>, competencia: &Option<Vec<u8>>) -> (r:
    Classification)
    ensures
        r@ == spec_classify(
            seqs_of(fields@),
            match competencia {
                Option::Some(c) => Option::Some(c@),
                Option::None => Option::<Seq<u8>>::None,
            },
        ),
{
    proof {
        assert forall|k: int| 0 <= k < fields@.len() implies seqs_of(fields@)[k]
            == fields@[k]@ by {}
    }
    let n = fields.len();
    let is_contrib = n > 9 && is_cnpj_valid(&fields[9]);
    let is_icms = n > 7 && is_cnpj_valid(&fields[7]);
    match competencia {
        Option::None => Classification {
            is_contribuicoes: is_contrib,
            is_icms_ipi: is_icms,
            competencia: if is_icms {
                Option::Some(copy_bytes(&fields[5]))
            } else if is_contrib {
                Option::Some(copy_bytes(&fields[7]))
            } else {
                Option::None
            },
        },
        Option::Some(c) => Classification {
            is_contribuicoes: is_contrib && bytes_eq(&fields[7], c),
            is_icms_ipi: is_icms && bytes_eq(&fields[5], c),
            competencia: Option::Some(copy_bytes(c)),
        },
    }
}

} // verus!
