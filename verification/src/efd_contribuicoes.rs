use vstd::prelude::*;
use crate::amount::{spec_field_amount, spec_mul_div, field_amount, mul_div};
use crate::error::{ErrorV, SpedError};
use crate::table::{
    CompositeKey, CompositeMap, KeyV, assoc_index, bytes_eq, copy_bytes, key_eq, copy_key,
    lemma_assoc_index_at, spec_lookup,
};
use crate::tokenize::{
    seqs_of, spec_fields, spec_lines, split_document_lines, split_line_fields, field_is1,
    field_is2, field_is4, B0, B1, B2, B3, B4, B5, B6, B7, B8, B9, BC, BD, BF, BM,
};
use crate::efd_icms_ipi::tag4;

verus! {

// The EFD Contribuições aggregator: one forward pass with layered running
// context, two deferred-finalization accrual caches, and a finalization step
// that resolves the composite-keyed cache against the ICMS/IPI summary.

/// An invoice-keyed accrual: the header tax value seeding the proportional
/// base, the total qualifying operation value, and the subset under
/// tax-situation code 01.
pub struct C175V {
    pub base: int,
    pub total: int,
    pub cst01: int,
}

/// A composite-keyed accrual: the same two running totals, with the base
/// value found in the ICMS/IPI summary only at finalization.
pub struct C180V {
    pub total: int,
    pub cst01: int,
}

/// One assessment row in mathematical form.
pub struct ApuV {
    pub vl_rec_brt: int,
    pub vl_bc_cont: int,
    pub aliq_cont: int,
}

/// The flat per-record-type summary in mathematical form.
pub struct FlatV {
    pub c170: int,
    pub c175: int,
    pub c180: int,
}

/// One `M210`/`M610` assessment row: gross revenue, contribution base and
/// contribution rate, all fixed-point.
pub struct Apuracao {
    pub vl_rec_brt: u64,
    pub vl_bc_cont: u64,
    pub aliq_cont: u64,
}

impl View for Apuracao {
    type V = ApuV;

    open spec fn view(&self) -> ApuV {
        ApuV {
            vl_rec_brt: self.vl_rec_brt as int,
            vl_bc_cont: self.vl_bc_cont as int,
            aliq_cont: self.aliq_cont as int,
        }
    }
}

/// The flat summary: one running sum per directly or indirectly accumulated
/// record type.
pub struct FlatSummary {
    pub c170: u128,
    pub c175: u128,
    pub c180: u128,
}

impl View for FlatSummary {
    type V = FlatV;

    open spec fn view(&self) -> FlatV {
        FlatV { c170: self.c170 as int, c175: self.c175 as int, c180: self.c180 as int }
    }
}

/// An invoice-keyed accrual under construction.
pub struct C175Acc {
    pub base: u64,
    pub total: u128,
    pub cst01: u128,
}

impl View for C175Acc {
    type V = C175V;

    open spec fn view(&self) -> C175V {
        C175V { base: self.base as int, total: self.total as int, cst01: self.cst01 as int }
    }
}

/// A composite-keyed accrual under construction.
pub struct C180Acc {
    pub total: u128,
    pub cst01: u128,
}

impl View for C180Acc {
    type V = C180V;

    open spec fn view(&self) -> C180V {
        C180V { total: self.total as int, cst01: self.cst01 as int }
    }
}

pub open spec fn c175_view(v: Seq<(Vec<u8>, C175Acc)>) -> Seq<(Seq<u8>, C175V)> {
    v.map_values(|e: (Vec<u8>, C175Acc)| (e.0@, e.1@))
}

pub open spec fn c180_view(v: Seq<(CompositeKey, C180Acc)>) -> Seq<(KeyV, C180V)> {
    v.map_values(|e: (CompositeKey, C180Acc)| (e.0@, e.1@))
}

pub open spec fn apu_view(v: Seq<Apuracao>) -> Seq<ApuV> {
    v.map_values(|a: Apuracao| a@)
}

/// The running context and caches of the Contribuições pass, in mathematical
/// form.
pub struct ContribStateV {
    pub cnpj: Seq<u8>,
    pub ind_escri: Seq<u8>,
    pub ind_oper: Seq<u8>,
    pub cod_mod: Seq<u8>,
    pub chv_nfe: Seq<u8>,
    pub vl_icms: int,
    pub c175: Seq<(Seq<u8>, C175V)>,
    pub c180_mod: Seq<u8>,
    pub c180: Seq<(KeyV, C180V)>,
    pub summary: FlatV,
    pub m210: Seq<ApuV>,
    pub m610: Seq<ApuV>,
}

pub open spec fn contrib_init() -> ContribStateV {
    ContribStateV {
        cnpj: Seq::empty(),
        ind_escri: Seq::empty(),
        ind_oper: Seq::empty(),
        cod_mod: Seq::empty(),
        chv_nfe: Seq::empty(),
        vl_icms: 0,
        c175: Seq::empty(),
        c180_mod: Seq::empty(),
        c180: Seq::empty(),
        summary: FlatV { c170: 0, c175: 0, c180: 0 },
        m210: Seq::empty(),
        m610: Seq::empty(),
    }
}

/// The record types this aggregator knows of but does not model: meeting one
/// is fatal by design.
pub open spec fn contrib_unimplemented(t: Seq<u8>) -> bool {
    ||| tag4(t, BC, B3, B8, B1)
    ||| tag4(t, BC, B3, B8, B5)
    ||| tag4(t, BC, B4, B8, B1)
    ||| tag4(t, BC, B4, B8, B5)
    ||| tag4(t, BC, B4, B9, B1)
    ||| tag4(t, BC, B4, B9, B5)
    ||| tag4(t, BC, B6, B0, B1)
    ||| tag4(t, BC, B6, B0, B5)
    ||| tag4(t, BC, B8, B7, B0)
    ||| tag4(t, BD, B2, B0, B1)
    ||| tag4(t, BD, B2, B0, B5)
    ||| tag4(t, BD, B3, B0, B0)
    ||| tag4(t, BD, B3, B5, B0)
    ||| tag4(t, BD, B6, B0, B1)
    ||| tag4(t, BD, B6, B0, B5)
    ||| tag4(t, BF, B1, B0, B0)
    ||| tag4(t, BF, B5, B0, B0)
    ||| tag4(t, BF, B5, B5, B0)
}

/// Adding one qualifying `C175` value into the invoice-keyed accrual of `k`,
/// seeding the base from the current header tax value on first touch.
pub open spec fn c175_upsert(
    s: Seq<(Seq<u8>, C175V)>,
    k: Seq<u8>,
    base: int,
    vl: int,
    is01: bool,
) -> Result<Seq<(Seq<u8>, C175V)>, ErrorV> {
    let i = assoc_index(s, k);
    if i == -1 {
        Result::Ok(s.push((k, C175V { base, total: vl, cst01: if is01 {
            vl
        } else {
            0
        } })))
    } else {
        let cur = s[i].1;
        if cur.total + vl > u128::MAX || (is01 && cur.cst01 + vl > u128::MAX) {
            Result::Err(ErrorV::ValueOverflow)
        } else {
            Result::Ok(s.update(i, (k, C175V {
                base: cur.base,
                total: cur.total + vl,
                cst01: if is01 {
                    cur.cst01 + vl
                } else {
                    cur.cst01
                },
            })))
        }
    }
}

/// Adding one qualifying `C181` value into the composite-keyed accrual of
/// `k`.
pub open spec fn c180_upsert(s: Seq<(KeyV, C180V)>, k: KeyV, vl: int, is01: bool) -> Result<
    Seq<(KeyV, C180V)>,
    ErrorV,
> {
    let i = assoc_index(s, k);
    if i == -1 {
        Result::Ok(s.push((k, C180V { total: vl, cst01: if is01 {
            vl
        } else {
            0
        } })))
    } else {
        let cur = s[i].1;
        if cur.total + vl > u128::MAX || (is01 && cur.cst01 + vl > u128::MAX) {
            Result::Err(ErrorV::ValueOverflow)
        } else {
            Result::Ok(s.update(i, (k, C180V {
                total: cur.total + vl,
                cst01: if is01 {
                    cur.cst01 + vl
                } else {
                    cur.cst01
                },
            })))
        }
    }
}

/// The assessment row read from an `M210`/`M610` record: a 15-field row
/// carries revenue, base and rate at positions 3, 4, 5; any other width
/// carries them at positions 3, 7, 8.
pub open spec fn apu_of(f: Seq<Seq<u8>>) -> ApuV {
    if f.len() == 15 {
        ApuV {
            vl_rec_brt: spec_field_amount(f, 3),
            vl_bc_cont: spec_field_amount(f, 4),
            aliq_cont: spec_field_amount(f, 5),
        }
    } else {
        ApuV {
            vl_rec_brt: spec_field_amount(f, 3),
            vl_bc_cont: spec_field_amount(f, 7),
            aliq_cont: spec_field_amount(f, 8),
        }
    }
}

/// Whether an `M210`/`M610` assessment-code field signals an
/// inclusion-eligible regime.
pub open spec fn eligible_code(c: Seq<u8>) -> bool {
    c == seq![B0, B1] || c == seq![B5, B1]
}

/// One line of the Contribuições document applied to the running context.
pub open spec fn contrib_step(st: ContribStateV, f: Seq<Seq<u8>>) -> Result<
    ContribStateV,
    ErrorV,
> {
    if f.len() < 2 {
        Result::Ok(st)
    } else {
        let tag = f[1];
        if tag4(tag, BC, B0, B1, B0) {
            if f.len() < 4 {
                Result::Err(ErrorV::MissingField(tag))
            } else {
                Result::Ok(ContribStateV { cnpj: f[2], ind_escri: f[3], ..st })
            }
        } else if tag4(tag, BC, B1, B0, B0) {
            if f.len() < 10 {
                Result::Err(ErrorV::MissingField(tag))
            } else {
                Result::Ok(
                    ContribStateV {
                        ind_oper: f[2],
                        cod_mod: f[5],
                        chv_nfe: f[9],
                        vl_icms: spec_field_amount(f, 22),
                        ..st
                    },
                )
            }
        } else if tag4(tag, BC, B1, B7, B0) {
            if st.ind_oper != seq![B1] {
                Result::Ok(st)
            } else if st.cod_mod != seq![B5, B5] || st.ind_escri != seq![B1] {
                if f.len() < 26 {
                    Result::Err(ErrorV::MissingField(tag))
                } else if f[25] == seq![B0, B1] {
                    let v = spec_field_amount(f, 15);
                    if st.summary.c170 + v > u128::MAX {
                        Result::Err(ErrorV::ValueOverflow)
                    } else {
                        Result::Ok(
                            ContribStateV {
                                summary: FlatV { c170: st.summary.c170 + v, ..st.summary },
                                ..st
                            },
                        )
                    }
                } else {
                    Result::Ok(st)
                }
            } else {
                Result::Ok(st)
            }
        } else if tag4(tag, BC, B1, B7, B5) {
            if f.len() < 3 {
                Result::Err(ErrorV::MissingField(tag))
            } else if f[2] == seq![B5, B1, B0, B2] {
                if f.len() < 6 {
                    Result::Err(ErrorV::MissingField(tag))
                } else {
                    let v = spec_field_amount(f, 3);
                    match c175_upsert(
                        st.c175,
                        st.chv_nfe,
                        st.vl_icms,
                        v,
                        f[5] == seq![B0, B1],
                    ) {
                        Result::Ok(t) => Result::Ok(ContribStateV { c175: t, ..st }),
                        Result::Err(e) => Result::Err(e),
                    }
                }
            } else {
                Result::Ok(st)
            }
        } else if tag4(tag, BC, B1, B8, B0) {
            if f.len() < 3 {
                Result::Err(ErrorV::MissingField(tag))
            } else {
                Result::Ok(ContribStateV { c180_mod: f[2], ..st })
            }
        } else if tag4(tag, BC, B1, B8, B1) {
            if st.ind_escri != seq![B2] || st.c180_mod == seq![B6, B5] {
                if f.len() < 4 {
                    Result::Err(ErrorV::MissingField(tag))
                } else if f[3] == seq![B5, B1, B0, B2] {
                    let v = spec_field_amount(f, 4);
                    match c180_upsert(
                        st.c180,
                        (st.cnpj, st.c180_mod, f[3]),
                        v,
                        f[2] == seq![B0, B1],
                    ) {
                        Result::Ok(t) => Result::Ok(ContribStateV { c180: t, ..st }),
                        Result::Err(e) => Result::Err(e),
                    }
                } else {
                    Result::Err(ErrorV::InvalidCfop(f[3]))
                }
            } else {
                Result::Ok(st)
            }
        } else if contrib_unimplemented(tag) {
            Result::Err(ErrorV::NotImplemented(tag))
        } else if tag4(tag, BM, B2, B1, B0) {
            if f.len() < 3 {
                Result::Err(ErrorV::MissingField(tag))
            } else if eligible_code(f[2]) {
                Result::Ok(ContribStateV { m210: st.m210.push(apu_of(f)), ..st })
            } else {
                Result::Ok(st)
            }
        } else if tag4(tag, BM, B6, B1, B0) {
            if f.len() < 3 {
                Result::Err(ErrorV::MissingField(tag))
            } else if eligible_code(f[2]) {
                Result::Ok(ContribStateV { m610: st.m610.push(apu_of(f)), ..st })
            } else {
                Result::Ok(st)
            }
        } else {
            Result::Ok(st)
        }
    }
}

/// The whole pass: lines applied in order, stopping at the first fatal
/// condition.
pub open spec fn contrib_run(lines: Seq<Seq<u8>>) -> Result<ContribStateV, ErrorV>
    decreases lines.len(),
{
    if lines.len() == 0 {
        Result::Ok(contrib_init())
    } else {
        match contrib_run(lines.drop_last()) {
            Result::Err(e) => Result::Err(e),
            Result::Ok(st) => contrib_step(st, spec_fields(lines.last())),
        }
    }
}

/// Finalizing the invoice-keyed accruals: each entry contributes
/// `base * cst01 / total`, summed in order onto `acc`.
pub open spec fn c175_fold(entries: Seq<(Seq<u8>, C175V)>, acc: int) -> Result<int, ErrorV>
    decreases entries.len(),
{
    if entries.len() == 0 {
        Result::Ok(acc)
    } else {
        match c175_fold(entries.drop_last(), acc) {
            Result::Err(e) => Result::Err(e),
            Result::Ok(a) => {
                let v = entries.last().1;
                match spec_mul_div(v.base, v.cst01, v.total) {
                    Result::Err(e) => Result::Err(e),
                    Result::Ok(x) => if a + x > u128::MAX {
                        Result::Err(ErrorV::ValueOverflow)
                    } else {
                        Result::Ok(a + x)
                    },
                }
            },
        }
    }
}

/// Finalizing the composite-keyed accruals: each entry's base value is
/// looked up in the ICMS/IPI summary -- a miss is fatal -- and contributes
/// `base * cst01 / total`, summed in order onto `acc`.
pub open spec fn c180_fold(
    entries: Seq<(KeyV, C180V)>,
    table: Seq<(KeyV, int)>,
    acc: int,
) -> Result<int, ErrorV>
    decreases entries.len(),
{
    if entries.len() == 0 {
        Result::Ok(acc)
    } else {
        match c180_fold(entries.drop_last(), table, acc) {
            Result::Err(e) => Result::Err(e),
            Result::Ok(a) => {
                let k = entries.last().0;
                let v = entries.last().1;
                match spec_lookup(table, k) {
                    Option::None => Result::Err(ErrorV::MissingKey(k)),
                    Option::Some(b) => match spec_mul_div(b, v.cst01, v.total) {
                        Result::Err(e) => Result::Err(e),
                        Result::Ok(x) => if a + x > u128::MAX {
                            Result::Err(ErrorV::ValueOverflow)
                        } else {
                            Result::Ok(a + x)
                        },
                    },
                }
            },
        }
    }
}

/// The post-pass finalization: both accrual caches are consumed into the
/// flat summary, under tags `C175` and `C180` respectively.
pub open spec fn contrib_finalize(st: ContribStateV, table: Seq<(KeyV, int)>) -> Result<
    (FlatV, Seq<ApuV>, Seq<ApuV>),
    ErrorV,
> {
    match c175_fold(st.c175, st.summary.c175) {
        Result::Err(e) => Result::Err(e),
        Result::Ok(v175) => match c180_fold(st.c180, table, st.summary.c180) {
            Result::Err(e) => Result::Err(e),
            Result::Ok(v180) => Result::Ok(
                (FlatV { c170: st.summary.c170, c175: v175, c180: v180 }, st.m210, st.m610),
            ),
        },
    }
}

/// What aggregating a decoded Contribuições document against the ICMS/IPI
/// summary yields: the flat summary and the two ordered assessment lists, or
/// the first fatal condition.
pub open spec fn spec_contrib_summary(text: Seq<u8>, table: Seq<(KeyV, int)>) -> Result<
    (FlatV, Seq<ApuV>, Seq<ApuV>),
    ErrorV,
> {
    match contrib_run(spec_lines(text)) {
        Result::Err(e) => Result::Err(e),
        Result::Ok(st) => contrib_finalize(st, table),
    }
}

pub proof fn lemma_contrib_run_err_prefix(lines: Seq<Seq<u8>>, k: int)
    requires
        0 <= k <= lines.len(),
        contrib_run(lines.take(k)) is Err,
    ensures
        contrib_run(lines) == contrib_run(lines.take(k)),
    decreases lines.len() - k,
{
    if k < lines.len() {
        assert(lines.take(k + 1).drop_last() =~= lines.take(k));
        assert(contrib_run(lines.take(k + 1)) == contrib_run(lines.take(k)));
        lemma_contrib_run_err_prefix(lines, k + 1);
    } else {
        assert(lines.take(k) =~= lines);
    }
}

pub proof fn lemma_c175_fold_err_prefix(entries: Seq<(Seq<u8>, C175V)>, acc: int, k: int)
    requires
        0 <= k <= entries.len(),
        c175_fold(entries.take(k), acc) is Err,
    ensures
        c175_fold(entries, acc) == c175_fold(entries.take(k), acc),
    decreases entries.len() - k,
{
    if k < entries.len() {
        assert(entries.take(k + 1).drop_last() =~= entries.take(k));
        assert(c175_fold(entries.take(k + 1), acc) == c175_fold(entries.take(k), acc));
        lemma_c175_fold_err_prefix(entries, acc, k + 1);
    } else {
        assert(entries.take(k) =~= entries);
    }
}

pub proof fn lemma_c180_fold_err_prefix(
    entries: Seq<(KeyV, C180V)>,
    table: Seq<(KeyV, int)>,
    acc: int,
    k: int,
)
    requires
        0 <= k <= entries.len(),
        c180_fold(entries.take(k), table, acc) is Err,
    ensures
        c180_fold(entries, table, acc) == c180_fold(entries.take(k), table, acc),
    decreases entries.len() - k,
{
    if k < entries.len() {
        assert(entries.take(k + 1).drop_last() =~= entries.take(k));
        assert(c180_fold(entries.take(k + 1), table, acc) == c180_fold(
            entries.take(k),
            table,
            acc,
        ));
        lemma_c180_fold_err_prefix(entries, table, acc, k + 1);
    } else {
        assert(entries.take(k) =~= entries);
    }
}

/// The running context of the executable pass.
pub struct ContribState {
    pub cnpj: Vec<u8>,
    pub ind_escri: Vec<u8>,
    pub ind_oper: Vec<u8>,
    pub cod_mod: Vec<u8>,
    pub chv_nfe: Vec<u8>,
    pub vl_icms: u64,
    pub c175: Vec<(Vec<u8>, C175Acc)>,
    pub c180_mod: Vec<u8>,
    pub c180: Vec<(CompositeKey, C180Acc)>,
    pub summary: FlatSummary,
    pub m210: Vec<Apuracao>,
    pub m610: Vec<Apuracao>,
}

impl View for ContribState {
    type V = ContribStateV;

    open spec fn view(&self) -> ContribStateV {
        ContribStateV {
            cnpj: self.cnpj@,
            ind_escri: self.ind_escri@,
            ind_oper: self.ind_oper@,
            cod_mod: self.cod_mod@,
            chv_nfe: self.chv_nfe@,
            vl_icms: self.vl_icms as int,
            c175: c175_view(self.c175@),
            c180_mod: self.c180_mod@,
            c180: c180_view(self.c180@),
            summary: self.summary@,
            m210: apu_view(self.m210@),
            m610: apu_view(self.m610@),
        }
    }
}

/// Whether `tag` is in the fixed unimplemented set.
fn is_contrib_unimplemented(tag: &Vec<u8>) -> (r: bool)
    ensures
        r == contrib_unimplemented(tag@),
{
    field_is4(tag, BC, B3, B8, B1) || field_is4(tag, BC, B3, B8, B5) || field_is4(
        tag,
        BC,
        B4,
        B8,
        B1,
    ) || field_is4(tag, BC, B4, B8, B5) || field_is4(tag, BC, B4, B9, B1) || field_is4(
        tag,
        BC,
        B4,
        B9,
        B5,
    ) || field_is4(tag, BC, B6, B0, B1) || field_is4(tag, BC, B6, B0, B5) || field_is4(
        tag,
        BC,
        B8,
        B7,
        B0,
    ) || field_is4(tag, BD, B2, B0, B1) || field_is4(tag, BD, B2, B0, B5) || field_is4(
        tag,
        BD,
        B3,
        B0,
        B0,
    ) || field_is4(tag, BD, B3, B5, B0) || field_is4(tag, BD, B6, B0, B1) || field_is4(
        tag,
        BD,
        B6,
        B0,
        B5,
    ) || field_is4(tag, BF, B1, B0, B0) || field_is4(tag, BF, B5, B0, B0) || field_is4(
        tag,
        BF,
        B5,
        B5,
        B0,
    )
}

/// Adds one qualifying `C175` value into the invoice-keyed cache.
fn c175_upsert_exec(t: &mut Vec<(Vec<u8>, C175Acc)>, key: Vec<u8>, base: u64, vl: u64, is01: bool)
    -> (r: Result<(), SpedError>)
    ensures
        match r {
            Result::Ok(()) => c175_upsert(c175_view(old(t)@), key@, base as int, vl as int, is01)
                == Result::<Seq<(Seq<u8>, C175V)>, ErrorV>::Ok(c175_view(final(t)@)),
            Result::Err(e) => c175_upsert(c175_view(old(t)@), key@, base as int, vl as int, is01)
                == Result::<Seq<(Seq<u8>, C175V)>, ErrorV>::Err(e@),
        },
{
    let ghost sv = c175_view(t@);
    let n = t.len();
    let mut j: usize = 0;
    while j < n
        invariant
            0 <= j <= n,
            t@.len() == n,
            t@ == old(t)@,
            sv == c175_view(old(t)@),
            sv.len() == n,
            forall|k: int| 0 <= k < j ==> sv[k].0 != key@,
            forall|k: int| 0 <= k < n ==> sv[k] == (t@[k].0@, t@[k].1@),
        decreases n - j,
    {
        if bytes_eq(&t[j].0, &key) {
            proof {
                lemma_assoc_index_at(sv, key@, j as int);
            }
            let cur_total = t[j].1.total;
            let cur_cst01 = t[j].1.cst01;
            let cur_base = t[j].1.base;
            if cur_total > u128::MAX - (vl as u128) || (is01 && cur_cst01 > u128::MAX - (
            vl as u128)) {
                return Result::Err(SpedError::ValueOverflow);
            }
            let acc = C175Acc {
                base: cur_base,
                total: cur_total + vl as u128,
                cst01: if is01 {
                    cur_cst01 + vl as u128
                } else {
                    cur_cst01
                },
            };
            t.set(j, (key, acc));
            proof {
                assert(c175_view(t@) =~= sv.update(j as int, (sv[j as int].0, acc@)));
            }
            return Result::Ok(());
        }
        j += 1;
    }
    proof {
        lemma_assoc_index_at(sv, key@, n as int);
    }
    let acc = C175Acc { base, total: vl as u128, cst01: if is01 {
        vl as u128
    } else {
        0
    } };
    t.push((key, acc));
    proof {
        assert(c175_view(t@) =~= sv.push((key@, acc@)));
    }
    Result::Ok(())
}

/// Adds one qualifying `C181` value into the composite-keyed cache.
fn c180_upsert_exec(
    t: &mut Vec<(CompositeKey, C180Acc)>,
    key: CompositeKey,
    vl: u64,
    is01: bool,
) -> (r: Result<(), SpedError>)
    ensures
        match r {
            Result::Ok(()) => c180_upsert(c180_view(old(t)@), key@, vl as int, is01) == Result::<
                Seq<(KeyV, C180V)>,
                ErrorV,
            >::Ok(c180_view(final(t)@)),
            Result::Err(e) => c180_upsert(c180_view(old(t)@), key@, vl as int, is01) == Result::<
                Seq<(KeyV, C180V)>,
                ErrorV,
            >::Err(e@),
        },
{
    let ghost sv = c180_view(t@);
    let n = t.len();
    let mut j: usize = 0;
    while j < n
        invariant
            0 <= j <= n,
            t@.len() == n,
            t@ == old(t)@,
            sv == c180_view(old(t)@),
            sv.len() == n,
            forall|k: int| 0 <= k < j ==> sv[k].0 != key@,
            forall|k: int| 0 <= k < n ==> sv[k] == (t@[k].0@, t@[k].1@),
        decreases n - j,
    {
        if key_eq(&t[j].0, &key) {
            proof {
                lemma_assoc_index_at(sv, key@, j as int);
            }
            let cur_total = t[j].1.total;
            let cur_cst01 = t[j].1.cst01;
            if cur_total > u128::MAX - (vl as u128) || (is01 && cur_cst01 > u128::MAX - (
            vl as u128)) {
                return Result::Err(SpedError::ValueOverflow);
            }
            let acc = C180Acc {
                total: cur_total + vl as u128,
                cst01: if is01 {
                    cur_cst01 + vl as u128
                } else {
                    cur_cst01
                },
            };
            t.set(j, (key, acc));
            proof {
                assert(c180_view(t@) =~= sv.update(j as int, (sv[j as int].0, acc@)));
            }
            return Result::Ok(());
        }
        j += 1;
    }
    proof {
        lemma_assoc_index_at(sv, key@, n as int);
    }
    let acc = C180Acc { total: vl as u128, cst01: if is01 {
        vl as u128
    } else {
        0
    } };
    t.push((key, acc));
    proof {
        assert(c180_view(t@) =~= sv.push((key@, acc@)));
    }
    Result::Ok(())
}

/// Applies one line's fields to the running context.
#[verifier::rlimit(30)]
fn step(st: &mut ContribState, fields: &Vec<Vec<u8>>) -> (r: Result<(), SpedError>)
    ensures
        match r {
            Result::Ok(()) => contrib_step(old(st)@, seqs_of(fields@)) == Result::<
                ContribStateV,
                ErrorV,
            >::Ok(final(st)@),
            Result::Err(e) => contrib_step(old(st)@, seqs_of(fields@)) == Result::<
                ContribStateV,
                ErrorV,
            >::Err(e@),
        },
{
    let n = fields.len();
    if n < 2 {
        return Result::Ok(());
    }
    proof {
        assert forall|k: int| 0 <= k < fields@.len() implies seqs_of(fields@)[k]
            == fields@[k]@ by {}
    }
    let tag = &fields[1];
    if field_is4(tag, BC, B0, B1, B0) {
        if n < 4 {
            return Result::Err(SpedError::MissingField(copy_bytes(tag)));
        }
        st.cnpj = copy_bytes(&fields[2]);
        st.ind_escri = copy_bytes(&fields[3]);
        Result::Ok(())
    } else if field_is4(tag, BC, B1, B0, B0) {
        if n < 10 {
            return Result::Err(SpedError::MissingField(copy_bytes(tag)));
        }
        st.ind_oper = copy_bytes(&fields[2]);
        st.cod_mod = copy_bytes(&fields[5]);
        st.chv_nfe = copy_bytes(&fields[9]);
        st.vl_icms = field_amount(fields, 22);
        Result::Ok(())
    } else if field_is4(tag, BC, B1, B7, B0) {
        if !field_is1(&st.ind_oper, B1) {
            return Result::Ok(());
        }
        if !field_is2(&st.cod_mod, B5, B5) || !field_is1(&st.ind_escri, B1) {
            if n < 26 {
                return Result::Err(SpedError::MissingField(copy_bytes(tag)));
            }
            if field_is2(&fields[25], B0, B1) {
                let v = field_amount(fields, 15);
                if st.summary.c170 > u128::MAX - (v as u128) {
                    return Result::Err(SpedError::ValueOverflow);
                }
                st.summary.c170 = st.summary.c170 + v as u128;
                Result::Ok(())
            } else {
                Result::Ok(())
            }
        } else {
            Result::Ok(())
        }
    } else if field_is4(tag, BC, B1, B7, B5) {
        if n < 3 {
            return Result::Err(SpedError::MissingField(copy_bytes(tag)));
        }
        if field_is4(&fields[2], B5, B1, B0, B2) {
            if n < 6 {
                return Result::Err(SpedError::MissingField(copy_bytes(tag)));
            }
            let v = field_amount(fields, 3);
            let key = copy_bytes(&st.chv_nfe);
            let base = st.vl_icms;
            let is01 = field_is2(&fields[5], B0, B1);
            match c175_upsert_exec(&mut st.c175, key, base, v, is01) {
                Result::Ok(()) => Result::Ok(()),
                Result::Err(e) => Result::Err(e),
            }
        } else {
            Result::Ok(())
        }
    } else if field_is4(tag, BC, B1, B8, B0) {
        if n < 3 {
            return Result::Err(SpedError::MissingField(copy_bytes(tag)));
        }
        st.c180_mod = copy_bytes(&fields[2]);
        Result::Ok(())
    } else if field_is4(tag, BC, B1, B8, B1) {
        if !field_is1(&st.ind_escri, B2) || field_is2(&st.c180_mod, B6, B5) {
            if n < 4 {
                return Result::Err(SpedError::MissingField(copy_bytes(tag)));
            }
            if field_is4(&fields[3], B5, B1, B0, B2) {
                let v = field_amount(fields, 4);
                let key = CompositeKey {
                    branch: copy_bytes(&st.cnpj),
                    model: copy_bytes(&st.c180_mod),
                    cfop: copy_bytes(&fields[3]),
                };
                let is01 = field_is2(&fields[2], B0, B1);
                match c180_upsert_exec(&mut st.c180, key, v, is01) {
                    Result::Ok(()) => Result::Ok(()),
                    Result::Err(e) => Result::Err(e),
                }
            } else {
                Result::Err(SpedError::InvalidCfop(copy_bytes(&fields[3])))
            }
        } else {
            Result::Ok(())
        }
    } else if is_contrib_unimplemented(tag) {
        Result::Err(SpedError::NotImplemented(copy_bytes(tag)))
    } else if field_is4(tag, BM, B2, B1, B0) {
        if n < 3 {
            return Result::Err(SpedError::MissingField(copy_bytes(tag)));
        }
        if field_is2(&fields[2], B0, B1) || field_is2(&fields[2], B5, B1) {
            let apu = read_apuracao(fields);
            st.m210.push(apu);
            proof {
                assert(apu_view(st.m210@) =~= apu_view(old(st).m210@).push(apu@));
            }
            Result::Ok(())
        } else {
            Result::Ok(())
        }
    } else if field_is4(tag, BM, B6, B1, B0) {
        if n < 3 {
            return Result::Err(SpedError::MissingField(copy_bytes(tag)));
        }
        if field_is2(&fields[2], B0, B1) || field_is2(&fields[2], B5, B1) {
            let apu = read_apuracao(fields);
            st.m610.push(apu);
            proof {
                assert(apu_view(st.m610@) =~= apu_view(old(st).m610@).push(apu@));
            }
            Result::Ok(())
        } else {
            Result::Ok(())
        }
    } else {
        Result::Ok(())
    }
}

/// Reads one assessment row, honouring both historical field layouts.
fn read_apuracao(fields: &Vec<Vec<u8>>) -> (r: Apuracao)
    ensures
        r@ == apu_of(seqs_of(fields@)),
{
    if fields.len() == 15 {
        Apuracao {
            vl_rec_brt: field_amount(fields, 3),
            vl_bc_cont: field_amount(fields, 4),
            aliq_cont: field_amount(fields, 5),
        }
    } else {
        Apuracao {
            vl_rec_brt: field_amount(fields, 3),
            vl_bc_cont: field_amount(fields, 7),
            aliq_cont: field_amount(fields, 8),
        }
    }
}

/// Consumes the invoice-keyed cache into the `C175` summary value.
fn finalize_c175(t: &Vec<(Vec<u8>, C175Acc)>, start: u128) -> (r: Result<u128, SpedError>)
    ensures
        match r {
            Result::Ok(v) => c175_fold(c175_view(t@), start as int) == Result::<int, ErrorV>::Ok(
                v as int,
            ),
            Result::Err(e) => c175_fold(c175_view(t@), start as int) == Result::<
                int,
                ErrorV,
            >::Err(e@),
        },
{
    let ghost sv = c175_view(t@);
    let mut acc: u128 = start;
    let n = t.len();
    let mut j: usize = 0;
    proof {
        assert(sv.take(0) =~= Seq::<(Seq<u8>, C175V)>::empty());
    }
    while j < n
        invariant
            0 <= j <= n,
            t@.len() == n,
            sv == c175_view(t@),
            sv.len() == n,
            forall|k: int| 0 <= k < n ==> sv[k] == (t@[k].0@, t@[k].1@),
            c175_fold(sv.take(j as int), start as int) == Result::<int, ErrorV>::Ok(acc as int),
        decreases n - j,
    {
        let ghost pre = sv.take(j as int);
        let ghost post = sv.take(j as int + 1);
        proof {
            assert(post.drop_last() =~= pre);
            assert(post.last() == sv[j as int]);
        }
        let e = &t[j].1;
        match mul_div(e.base as u128, e.cst01, e.total) {
            Result::Err(err) => {
                proof {
                    lemma_c175_fold_err_prefix(sv, start as int, j as int + 1);
                }
                return Result::Err(err);
            },
            Result::Ok(x) => {
                if x > u128::MAX - acc {
                    proof {
                        lemma_c175_fold_err_prefix(sv, start as int, j as int + 1);
                    }
                    return Result::Err(SpedError::ValueOverflow);
                }
                acc = acc + x;
            },
        }
        j += 1;
    }
    proof {
        assert(sv.take(n as int) =~= sv);
    }
    Result::Ok(acc)
}

/// Consumes the composite-keyed cache into the `C180` summary value,
/// resolving each base value in the ICMS/IPI summary.
fn finalize_c180(t: &Vec<(CompositeKey, C180Acc)>, table: &CompositeMap, start: u128) -> (r:
    Result<u128, SpedError>)
    ensures
        match r {
            Result::Ok(v) => c180_fold(c180_view(t@), table@, start as int) == Result::<
                int,
                ErrorV,
            >::Ok(v as int),
            Result::Err(e) => c180_fold(c180_view(t@), table@, start as int) == Result::<
                int,
                ErrorV,
            >::Err(e@),
        },
{
    let ghost sv = c180_view(t@);
    let mut acc: u128 = start;
    let n = t.len();
    let mut j: usize = 0;
    proof {
        assert(sv.take(0) =~= Seq::<(KeyV, C180V)>::empty());
    }
    while j < n
        invariant
            0 <= j <= n,
            t@.len() == n,
            sv == c180_view(t@),
            sv.len() == n,
            forall|k: int| 0 <= k < n ==> sv[k] == (t@[k].0@, t@[k].1@),
            c180_fold(sv.take(j as int), table@, start as int) == Result::<int, ErrorV>::Ok(
                acc as int,
            ),
        decreases n - j,
    {
        let ghost pre = sv.take(j as int);
        let ghost post = sv.take(j as int + 1);
        proof {
            assert(post.drop_last() =~= pre);
            assert(post.last() == sv[j as int]);
        }
        let key = &t[j].0;
        match table.lookup(key) {
            Option::None => {
                proof {
                    lemma_c180_fold_err_prefix(sv, table@, start as int, j as int + 1);
                }
                let k = copy_key(key);
                return Result::Err(SpedError::MissingKey(k.branch, k.model, k.cfop));
            },
            Option::Some(b) => {
                let e = &t[j].1;
                match mul_div(b, e.cst01, e.total) {
                    Result::Err(err) => {
                        proof {
                            lemma_c180_fold_err_prefix(sv, table@, start as int, j as int + 1);
                        }
                        return Result::Err(err);
                    },
                    Result::Ok(x) => {
                        if x > u128::MAX - acc {
                            proof {
                                lemma_c180_fold_err_prefix(sv, table@, start as int, j as int + 1);
                            }
                            return Result::Err(SpedError::ValueOverflow);
                        }
                        acc = acc + x;
                    },
                }
            },
        }
        j += 1;
    }
    proof {
        assert(sv.take(n as int) =~= sv);
    }
    Result::Ok(acc)
}

/// Aggregates one decoded Contribuições document against a completed
/// ICMS/IPI summary: the single forward pass, then finalization of both
/// accrual caches.  On success the flat summary and the two ordered
/// assessment lists are returned whole; any fatal condition yields no
/// partial result.
pub fn summarize(text: &Vec<u8>, table: &CompositeMap) -> (r: Result<
    (FlatSummary, Vec<Apuracao>, Vec<Apuracao>),
    SpedError,
>)
    ensures
        match r {
            Result::Ok(out) => spec_contrib_summary(text@, table@) == Result::<
                (FlatV, Seq<ApuV>, Seq<ApuV>),
                ErrorV,
            >::Ok((out.0@, apu_view(out.1@), apu_view(out.2@))),
            Result::Err(e) => spec_contrib_summary(text@, table@) == Result::<
                (FlatV, Seq<ApuV>, Seq<ApuV>),
                ErrorV,
            >::Err(e@),
        },
{
    let lines = split_document_lines(text);
    let mut st = ContribState {
        cnpj: Vec::new(),
        ind_escri: Vec::new(),
        ind_oper: Vec::new(),
        cod_mod: Vec::new(),
        chv_nfe: Vec::new(),
        vl_icms: 0,
        c175: Vec::new(),
        c180_mod: Vec::new(),
        c180: Vec::new(),
        summary: FlatSummary { c170: 0, c175: 0, c180: 0 },
        m210: Vec::new(),
        m610: Vec::new(),
    };
    proof {
        assert(st@.cnpj =~= contrib_init().cnpj);
        assert(st@.ind_escri =~= contrib_init().ind_escri);
        assert(st@.ind_oper =~= contrib_init().ind_oper);
        assert(st@.cod_mod =~= contrib_init().cod_mod);
        assert(st@.chv_nfe =~= contrib_init().chv_nfe);
        assert(st@.c175 =~= contrib_init().c175);
        assert(st@.c180_mod =~= contrib_init().c180_mod);
        assert(st@.c180 =~= contrib_init().c180);
        assert(st@.m210 =~= contrib_init().m210);
        assert(st@.m610 =~= contrib_init().m610);
        assert(spec_lines(text@).take(0) =~= Seq::<Seq<u8>>::empty());
    }
    let n = lines.len();
    let mut j: usize = 0;
    while j < n
        invariant
            0 <= j <= n,
            n == lines@.len(),
            seqs_of(lines@) == spec_lines(text@),
            contrib_run(spec_lines(text@).take(j as int)) == Result::<ContribStateV, ErrorV>::Ok(
                st@,
            ),
        decreases n - j,
    {
        let fields = split_line_fields(&lines[j]);
        let ghost pre = spec_lines(text@).take(j as int);
        let ghost post = spec_lines(text@).take(j as int + 1);
        proof {
            assert(post.drop_last() =~= pre);
            assert(post.last() == spec_lines(text@)[j as int]);
            assert(seqs_of(lines@)[j as int] == lines@[j as int]@);
        }
        match step(&mut st, &fields) {
            Result::Ok(()) => {},
            Result::Err(e) => {
                proof {
                    assert(contrib_run(post) == Result::<ContribStateV, ErrorV>::Err(e@));
                    lemma_contrib_run_err_prefix(spec_lines(text@), j as int + 1);
                }
                return Result::Err(e);
            },
        }
        j += 1;
    }
    proof {
        assert(spec_lines(text@).take(n as int) =~= spec_lines(text@));
    }
    let v175 = match finalize_c175(&st.c175, st.summary.c175) {
        Result::Ok(v) => v,
        Result::Err(e) => {
            return Result::Err(e);
        },
    };
    let v180 = match finalize_c180(&st.c180, table, st.summary.c180) {
        Result::Ok(v) => v,
        Result::Err(e) => {
            return Result::Err(e);
        },
    };
    let summary = FlatSummary { c170: st.summary.c170, c175: v175, c180: v180 };
    Result::Ok((summary, st.m210, st.m610))
}

// ------------------------------------------------------------------
// Laws of the aggregation, stated and proved over the specification.
// ------------------------------------------------------------------

/// Whether a finalization result is the missing-cross-document-key
/// condition.
pub open spec fn is_missing_key_err(r: Result<int, ErrorV>) -> bool {
    match r {
        Result::Err(ErrorV::MissingKey(_)) => true,
        _ => false,
    }
}

/// Law: finalizing the composite-keyed accruals never raises the
/// missing-key condition when every accrued key has a bucket in the
/// ICMS/IPI summary; and it fails outright as soon as some accrued key has
/// none.
pub proof fn lemma_finalize_lookup(
    entries: Seq<(KeyV, C180V)>,
    table: Seq<(KeyV, int)>,
    acc: int,
)
    ensures
        (forall|i: int|
            0 <= i < entries.len() ==> #[trigger] spec_lookup(table, entries[i].0) is Some)
            ==> !is_missing_key_err(c180_fold(entries, table, acc)),
        (exists|i: int|
            0 <= i < entries.len() && #[trigger] spec_lookup(table, entries[i].0) is None)
            ==> c180_fold(entries, table, acc) is Err,
    decreases entries.len(),
{
    if entries.len() > 0 {
        let pre = entries.drop_last();
        assert(forall|i: int| 0 <= i < pre.len() ==> pre[i] == entries[i]);
        lemma_finalize_lookup(pre, table, acc);
        if exists|i: int|
            0 <= i < entries.len() && #[trigger] spec_lookup(table, entries[i].0) is None {
            let i = choose|i: int|
                0 <= i < entries.len() && #[trigger] spec_lookup(table, entries[i].0) is None;
            if i < entries.len() - 1 {
                assert(spec_lookup(table, pre[i].0) is None);
            }
        }
    }
}

/// Law: an invoice-keyed accrual with base `b`, qualifying total `t` and
/// code-01 subset `s` finalizes to exactly `b * s / t`, and to zero when
/// the subset is zero.
pub proof fn lemma_invoice_proportional_split(k: Seq<u8>, b: int, t: int, s: int)
    requires
        0 <= b,
        0 <= s,
        0 < t,
        b * s <= u128::MAX,
    ensures
        c175_fold(seq![(k, C175V { base: b, total: t, cst01: s })], 0) == Result::<
            int,
            ErrorV,
        >::Ok(b * s / t),
        s == 0 ==> b * s / t == 0,
{
    let e = seq![(k, C175V { base: b, total: t, cst01: s })];
    assert(e.drop_last() =~= Seq::<(Seq<u8>, C175V)>::empty());
    assert(c175_fold(Seq::<(Seq<u8>, C175V)>::empty(), 0) == Result::<int, ErrorV>::Ok(0));
    assert(e.last() == (k, C175V { base: b, total: t, cst01: s }));
    assert(spec_mul_div(b, s, t) == Result::<int, ErrorV>::Ok(b * s / t));
    let x = b * s / t;
    vstd::arithmetic::div_mod::lemma_fundamental_div_mod(b * s, t);
    assert(x >= 0) by {
        if x < 0 {
            assert(t * x <= -t) by (nonlinear_arith)
                requires
                    x <= -1,
                    t >= 1,
            ;
        }
    }
    assert(x <= b * s) by {
        assert(t * x >= x) by (nonlinear_arith)
            requires
                x >= 0,
                t >= 1,
        ;
    }
    if s == 0 {
        assert(b * s == 0) by (nonlinear_arith)
            requires
                s == 0,
        ;
        assert(x == 0) by {
            if x > 0 {
                assert(t * x >= x) by (nonlinear_arith)
                    requires
                        x >= 0,
                        t >= 1,
                ;
            }
        }
    }
}

/// Law: an `M210`/`M610` row whose assessment code is neither 01 nor 51
/// leaves the state untouched, whatever its field layout.
pub proof fn lemma_assessment_code_filter(st: ContribStateV, f: Seq<Seq<u8>>)
    requires
        f.len() >= 3,
        tag4(f[1], BM, B2, B1, B0) || tag4(f[1], BM, B6, B1, B0),
        !eligible_code(f[2]),
    ensures
        contrib_step(st, f) == Result::<ContribStateV, ErrorV>::Ok(st),
{
}

/// Law: the two field layouts of `M210`/`M610` yield the same parsed row
/// when fed the same field values at their respective positions.
pub proof fn lemma_assessment_layouts(f1: Seq<Seq<u8>>, f2: Seq<Seq<u8>>)
    requires
        f1.len() == 15,
        f2.len() != 15,
        f2.len() >= 9,
        f1[3] == f2[3],
        f1[4] == f2[7],
        f1[5] == f2[8],
    ensures
        apu_of(f1) == apu_of(f2),
{
}

/// Law: a `C181` row carrying any CFOP other than 5102, when the row is
/// processed at all, is the invalid-CFOP condition, never a silent skip.
pub proof fn lemma_c181_invalid_cfop(st: ContribStateV, f: Seq<Seq<u8>>)
    requires
        f.len() >= 4,
        tag4(f[1], BC, B1, B8, B1),
        st.ind_escri != seq![B2] || st.c180_mod == seq![B6, B5],
        f[3] != seq![B5, B1, B0, B2],
    ensures
        contrib_step(st, f) == Result::<ContribStateV, ErrorV>::Err(ErrorV::InvalidCfop(f[3])),
{
}

} // verus!
