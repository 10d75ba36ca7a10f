use vstd::prelude::*;
use crate::amount::{spec_field_amount, field_amount};
use crate::error::{ErrorV, SpedError};
use crate::table::{CompositeKey, CompositeMap, KeyV, copy_bytes, spec_add_to};
use crate::tokenize::{
    seqs_of, spec_fields, spec_lines, split_document_lines, split_line_fields, field_is4,
    B0, B1, B2, B3, B4, B5, B6, B7, B8, B9, BC, BD,
};

verus! {

// The EFD ICMS/IPI aggregator: one forward pass over the document.  The file
// header sets the taxpayer-branch identifier, operation headers set the
// current document-model code, and every operation-summary record adds its
// tax value into the bucket of (branch, model, CFOP).  A fixed set of known
// record types is deliberately unimplemented and fatal, so that files
// exercising them are surfaced instead of being silently under-counted.

/// Whether `t` is exactly the four tag bytes `a b c d`.
pub open spec fn tag4(t: Seq<u8>, a: u8, b: u8, c: u8, d: u8) -> bool {
    t == seq![a, b, c, d]
}

/// The record types this aggregator knows of but does not model: meeting one
/// is fatal by design.
pub open spec fn icms_unimplemented(t: Seq<u8>) -> bool {
    ||| tag4(t, BC, B3, B2, B0)
    ||| tag4(t, BC, B3, B9, B0)
    ||| tag4(t, BC, B6, B9, B0)
    ||| tag4(t, BC, B7, B9, B0)
    ||| tag4(t, BC, B8, B5, B0)
    ||| tag4(t, BC, B8, B9, B0)
    ||| tag4(t, BD, B1, B9, B0)
    ||| tag4(t, BD, B3, B0, B0)
    ||| tag4(t, BD, B3, B9, B0)
    ||| tag4(t, BD, B4, B1, B0)
    ||| tag4(t, BD, B5, B9, B0)
    ||| tag4(t, BD, B6, B9, B0)
    ||| tag4(t, BD, B6, B9, B6)
}

/// The running context and output of the ICMS/IPI pass, in mathematical
/// form.
pub struct IcmsStateV {
    pub branch: Seq<u8>,
    pub model: Seq<u8>,
    pub table: Seq<(KeyV, int)>,
}

pub open spec fn icms_init() -> IcmsStateV {
    IcmsStateV { branch: Seq::empty(), model: Seq::empty(), table: Seq::empty() }
}

/// One line of the ICMS/IPI document applied to the running context.
pub open spec fn icms_step(st: IcmsStateV, f: Seq<Seq<u8>>) -> Result<IcmsStateV, ErrorV> {
    if f.len() < 2 {
        Result::Ok(st)
    } else {
        let tag = f[1];
        if tag4(tag, B0, B0, B0, B0) {
            if f.len() < 8 {
                Result::Err(ErrorV::MissingField(tag))
            } else {
                Result::Ok(IcmsStateV { branch: f[7], ..st })
            }
        } else if tag4(tag, BC, B1, B0, B0) {
            if f.len() < 6 {
                Result::Err(ErrorV::MissingField(tag))
            } else {
                Result::Ok(IcmsStateV { model: f[5], ..st })
            }
        } else if tag4(tag, BC, B1, B9, B0) || tag4(tag, BC, B4, B9, B0) || tag4(
            tag,
            BC,
            B5,
            B9,
            B0,
        ) {
            if f.len() < 4 {
                Result::Err(ErrorV::MissingField(tag))
            } else {
                match spec_add_to(
                    st.table,
                    (st.branch, st.model, f[3]),
                    spec_field_amount(f, 7),
                ) {
                    Result::Ok(t) => Result::Ok(IcmsStateV { table: t, ..st }),
                    Result::Err(e) => Result::Err(e),
                }
            }
        } else if tag4(tag, BC, B4, B0, B0) {
            if f.len() < 3 {
                Result::Err(ErrorV::MissingField(tag))
            } else {
                Result::Ok(IcmsStateV { model: f[2], ..st })
            }
        } else if tag4(tag, BC, B5, B0, B0) {
            if f.len() < 6 {
                Result::Err(ErrorV::MissingField(tag))
            } else {
                Result::Ok(IcmsStateV { model: f[5], ..st })
            }
        } else if icms_unimplemented(tag) {
            Result::Err(ErrorV::NotImplemented(tag))
        } else {
            Result::Ok(st)
        }
    }
}

/// The whole pass: lines applied in order, stopping at the first fatal
/// condition.
pub open spec fn icms_run(lines: Seq<Seq<u8>>) -> Result<IcmsStateV, ErrorV>
    decreases lines.len(),
{
    if lines.len() == 0 {
        Result::Ok(icms_init())
    } else {
        match icms_run(lines.drop_last()) {
            Result::Err(e) => Result::Err(e),
            Result::Ok(st) => icms_step(st, spec_fields(lines.last())),
        }
    }
}

/// What aggregating a decoded ICMS/IPI document yields: the composite-key
/// summary, or the first fatal condition.
pub open spec fn spec_icms_summary(text: Seq<u8>) -> Result<Seq<(KeyV, int)>, ErrorV> {
    match icms_run(spec_lines(text)) {
        Result::Ok(st) => Result::Ok(st.table),
        Result::Err(e) => Result::Err(e),
    }
}

pub proof fn lemma_icms_run_err_prefix(lines: Seq<Seq<u8>>, k: int)
    requires
        0 <= k <= lines.len(),
        icms_run(lines.take(k)) is Err,
    ensures
        icms_run(lines) == icms_run(lines.take(k)),
    decreases lines.len() - k,
{
    if k < lines.len() {
        assert(lines.take(k + 1).drop_last() =~= lines.take(k));
        assert(icms_run(lines.take(k + 1)) == icms_run(lines.take(k)));
        lemma_icms_run_err_prefix(lines, k + 1);
    } else {
        assert(lines.take(k) =~= lines);
    }
}

/// The running context of the executable pass.
pub struct IcmsState {
    pub branch: Vec<u8>,
    pub model: Vec<u8>,
    pub table: CompositeMap,
}

impl View for IcmsState {
    type V = IcmsStateV;

    open spec fn view(&self) -> IcmsStateV {
        IcmsStateV { branch: self.branch@, model: self.model@, table: self.table@ }
    }
}

/// Whether `tag` is in the fixed unimplemented set.
fn is_icms_unimplemented(tag: &Vec<u8>) -> (r: bool)
    ensures
        r == icms_unimplemented(tag@),
{
    field_is4(tag, BC, B3, B2, B0) || field_is4(tag, BC, B3, B9, B0) || field_is4(
        tag,
        BC,
        B6,
        B9,
        B0,
    ) || field_is4(tag, BC, B7, B9, B0) || field_is4(tag, BC, B8, B5, B0)
        || field_is4(tag, BC, B8, B9, B0) || field_is4(tag, BD, B1, B9, B0)
        || field_is4(tag, BD, B3, B0, B0) || field_is4(tag, BD, B3, B9, B0)
        || field_is4(tag, BD, B4, B1, B0) || field_is4(tag, BD, B5, B9, B0)
        || field_is4(tag, BD, B6, B9, B0) || field_is4(tag, BD, B6, B9, B6)
}

/// Applies one line's fields to the running context.
fn step(st: &mut IcmsState, fields: &Vec<Vec<u8>>) -> (r: Result<(), SpedError>)
    ensures
        match r {
            Result::Ok(()) => icms_step(old(st)@, seqs_of(fields@)) == Result::<
                IcmsStateV,
                ErrorV,
            >::Ok(final(st)@),
            Result::Err(e) => icms_step(old(st)@, seqs_of(fields@)) == Result::<
                IcmsStateV,
                ErrorV,
            >::Err(e@),
        },
{
    let n = fields.len();
    if n < 2 {
        return Result::Ok(());
    }
    proof {
        assert(seqs_of(fields@)[1] == fields@[1]@);
    }
    let tag = &fields[1];
    if field_is4(tag, B0, B0, B0, B0) {
        if n < 8 {
            return Result::Err(SpedError::MissingField(copy_bytes(tag)));
        }
        proof {
            assert(seqs_of(fields@)[7] == fields@[7]@);
        }
        st.branch = copy_bytes(&fields[7]);
        Result::Ok(())
    } else if field_is4(tag, BC, B1, B0, B0) || field_is4(tag, BC, B5, B0, B0) {
        if n < 6 {
            return Result::Err(SpedError::MissingField(copy_bytes(tag)));
        }
        proof {
            assert(seqs_of(fields@)[5] == fields@[5]@);
        }
        st.model = copy_bytes(&fields[5]);
        Result::Ok(())
    } else if field_is4(tag, BC, B1, B9, B0) || field_is4(tag, BC, B4, B9, B0)
        || field_is4(tag, BC, B5, B9, B0) {
        if n < 4 {
            return Result::Err(SpedError::MissingField(copy_bytes(tag)));
        }
        proof {
            assert(seqs_of(fields@)[3] == fields@[3]@);
        }
        let amt = field_amount(fields, 7);
        let key = CompositeKey {
            branch: copy_bytes(&st.branch),
            model: copy_bytes(&st.model),
            cfop: copy_bytes(&fields[3]),
        };
        match st.table.add_to(key, amt) {
            Result::Ok(()) => Result::Ok(()),
            Result::Err(e) => Result::Err(e),
        }
    } else if field_is4(tag, BC, B4, B0, B0) {
        if n < 3 {
            return Result::Err(SpedError::MissingField(copy_bytes(tag)));
        }
        proof {
            assert(seqs_of(fields@)[2] == fields@[2]@);
        }
        st.model = copy_bytes(&fields[2]);
        Result::Ok(())
    } else if is_icms_unimplemented(tag) {
        Result::Err(SpedError::NotImplemented(copy_bytes(tag)))
    } else {
        Result::Ok(())
    }
}

/// Aggregates one decoded ICMS/IPI document: a single forward pass over its
/// lines, yielding the composite-key summary whole, or the first fatal
/// condition with no partial result.
pub fn summarize(text: &Vec<u8>) -> (r: Result<CompositeMap, SpedError>)
    ensures
        match r {
            Result::Ok(m) => spec_icms_summary(text@) == Result::<Seq<(KeyV, int)>, ErrorV>::Ok(
                m@,
            ),
            Result::Err(e) => spec_icms_summary(text@) == Result::<Seq<(KeyV, int)>, ErrorV>::Err(
                e@,
            ),
        },
{
    let lines = split_document_lines(text);
    let mut st = IcmsState { branch: Vec::new(), model: Vec::new(), table: CompositeMap::new() };
    proof {
        assert(st@.branch =~= icms_init().branch);
        assert(st@.model =~= icms_init().model);
        assert(st@.table =~= icms_init().table);
        assert(spec_lines(text@).take(0) =~= Seq::<Seq<u8>>::empty());
    }
    let n = lines.len();
    let mut j: usize = 0;
    while j < n
        invariant
            0 <= j <= n,
            n == lines@.len(),
            seqs_of(lines@) == spec_lines(text@),
            icms_run(spec_lines(text@).take(j as int)) == Result::<IcmsStateV, ErrorV>::Ok(st@),
        decreases n - j,
    {
        let fields = split_line_fields(&lines[j]);
        let ghost pre = spec_lines(text@).take(j as int);
        let ghost post = spec_lines(text@).take(j as int + 1);
        proof {
            assert(post.drop_last() =~= pre);
            assert(post.last() == spec_lines(text@)[j as int]);
            assert(seqs_of(lines@)[j as int] == lines@[j as int]@);
        }
        match step(&mut st, &fields) {
            Result::Ok(()) => {},
            Result::Err(e) => {
                proof {
                    assert(icms_run(post) == Result::<IcmsStateV, ErrorV>::Err(e@));
                    lemma_icms_run_err_prefix(spec_lines(text@), j as int + 1);
                }
                return Result::Err(e);
            },
        }
        j += 1;
    }
    proof {
        assert(spec_lines(text@).take(n as int) =~= spec_lines(text@));
    }
    Result::Ok(st.table)
}

} // verus!
