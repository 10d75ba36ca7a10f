use vstd::prelude::*;
use crate::amount::{spec_mul_div, mul_div};
use crate::error::{ErrorV, SpedError};
use crate::efd_contribuicoes::{ApuV, Apuracao, FlatV, FlatSummary, apu_view};

verus! {

// The tax-savings calculator.  The flat summary's entries are summed into
// one recoverable total; each assessment row is apportioned its share of
// that total by its fraction of the list's gross revenue, and the share
// times the row's contribution rate (a percentage) is the row's estimated
// saving.  Each list -- one per contribution type -- is totalled on its own.

/// The summed gross revenue of a list of assessment rows.
pub open spec fn rev_sum(s: Seq<ApuV>) -> Result<int, ErrorV>
    decreases s.len(),
{
    if s.len() == 0 {
        Result::Ok(0)
    } else {
        match rev_sum(s.drop_last()) {
            Result::Err(e) => Result::Err(e),
            Result::Ok(a) => if a + s.last().vl_rec_brt > u128::MAX {
                Result::Err(ErrorV::ValueOverflow)
            } else {
                Result::Ok(a + s.last().vl_rec_brt)
            },
        }
    }
}

/// The summed estimated savings of a list of assessment rows, against a
/// recoverable total `v` and a list-wide gross revenue `rt`.  Each row's
/// exclusion is `v * revenue / rt`; its saving is the exclusion times the
/// rate, divided by 100 and by the fixed-point scale.
pub open spec fn savings_fold(v: int, rt: int, s: Seq<ApuV>) -> Result<int, ErrorV>
    decreases s.len(),
{
    if s.len() == 0 {
        Result::Ok(0)
    } else {
        match savings_fold(v, rt, s.drop_last()) {
            Result::Err(e) => Result::Err(e),
            Result::Ok(a) => match spec_mul_div(v, s.last().vl_rec_brt, rt) {
                Result::Err(e) => Result::Err(e),
                Result::Ok(excl) => match spec_mul_div(excl, s.last().aliq_cont, 1000000) {
                    Result::Err(e) => Result::Err(e),
                    Result::Ok(sav) => if a + sav > u128::MAX {
                        Result::Err(ErrorV::ValueOverflow)
                    } else {
                        Result::Ok(a + sav)
                    },
                },
            },
        }
    }
}

/// The single recoverable total: the flat summary's entries summed.
pub open spec fn total_recoverable(f: FlatV) -> Result<int, ErrorV> {
    if f.c170 + f.c175 + f.c180 > u128::MAX {
        Result::Err(ErrorV::ValueOverflow)
    } else {
        Result::Ok(f.c170 + f.c175 + f.c180)
    }
}

/// What the calculator yields: the two per-contribution-type savings
/// totals, or the first overflow met along the way.
pub open spec fn spec_savings(f: FlatV, m210: Seq<ApuV>, m610: Seq<ApuV>) -> Result<
    (int, int),
    ErrorV,
> {
    match total_recoverable(f) {
        Result::Err(e) => Result::Err(e),
        Result::Ok(v) => match rev_sum(m210) {
            Result::Err(e) => Result::Err(e),
            Result::Ok(rt1) => match rev_sum(m610) {
                Result::Err(e) => Result::Err(e),
                Result::Ok(rt2) => match savings_fold(v, rt1, m210) {
                    Result::Err(e) => Result::Err(e),
                    Result::Ok(p) => match savings_fold(v, rt2, m610) {
                        Result::Err(e) => Result::Err(e),
                        Result::Ok(c) => Result::Ok((p, c)),
                    },
                },
            },
        },
    }
}

pub proof fn lemma_rev_sum_err_prefix(s: Seq<ApuV>, k: int)
    requires
        0 <= k <= s.len(),
        rev_sum(s.take(k)) is Err,
    ensures
        rev_sum(s) == rev_sum(s.take(k)),
    decreases s.len() - k,
{
    if k < s.len() {
        assert(s.take(k + 1).drop_last() =~= s.take(k));
        assert(rev_sum(s.take(k + 1)) == rev_sum(s.take(k)));
        lemma_rev_sum_err_prefix(s, k + 1);
    } else {
        assert(s.take(k) =~= s);
    }
}

pub proof fn lemma_savings_fold_err_prefix(v: int, rt: int, s: Seq<ApuV>, k: int)
    requires
        0 <= k <= s.len(),
        savings_fold(v, rt, s.take(k)) is Err,
    ensures
        savings_fold(v, rt, s) == savings_fold(v, rt, s.take(k)),
    decreases s.len() - k,
{
    if k < s.len() {
        assert(s.take(k + 1).drop_last() =~= s.take(k));
        assert(savings_fold(v, rt, s.take(k + 1)) == savings_fold(v, rt, s.take(k)));
        lemma_savings_fold_err_prefix(v, rt, s, k + 1);
    } else {
        assert(s.take(k) =~= s);
    }
}

fn rev_sum_exec(s: &Vec<Apuracao>) -> (r: Result<u128, SpedError>)
    ensures
        match r {
            Result::Ok(v) => rev_sum(apu_view(s@)) == Result::<int, ErrorV>::Ok(v as int),
            Result::Err(e) => rev_sum(apu_view(s@)) == Result::<int, ErrorV>::Err(e@),
        },
{
    let ghost sv = apu_view(s@);
    let mut acc: u128 = 0;
    let n = s.len();
    let mut j: usize = 0;
    proof {
        assert(sv.take(0) =~= Seq::<ApuV>::empty());
    }
    while j < n
        invariant
            0 <= j <= n,
            s@.len() == n,
            sv == apu_view(s@),
            sv.len() == n,
            forall|k: int| 0 <= k < n ==> sv[k] == s@[k]@,
            rev_sum(sv.take(j as int)) == Result::<int, ErrorV>::Ok(acc as int),
        decreases n - j,
    {
        proof {
            assert(sv.take(j as int + 1).drop_last() =~= sv.take(j as int));
            assert(sv.take(j as int + 1).last() == sv[j as int]);
        }
        let rev = s[j].vl_rec_brt;
        if (rev as u128) > u128::MAX - acc {
            proof {
                lemma_rev_sum_err_prefix(sv, j as int + 1);
            }
            return Result::Err(SpedError::ValueOverflow);
        }
        acc = acc + rev as u128;
        j += 1;
    }
    proof {
        assert(sv.take(n as int) =~= sv);
    }
    Result::Ok(acc)
}

fn savings_exec(v: u128, rt: u128, s: &Vec<Apuracao>) -> (r: Result<u128, SpedError>)
    ensures
        match r {
            Result::Ok(x) => savings_fold(v as int, rt as int, apu_view(s@)) == Result::<
                int,
                ErrorV,
            >::Ok(x as int),
            Result::Err(e) => savings_fold(v as int, rt as int, apu_view(s@)) == Result::<
                int,
                ErrorV,
            >::Err(e@),
        },
{
    let ghost sv = apu_view(s@);
    let mut acc: u128 = 0;
    let n = s.len();
    let mut j: usize = 0;
    proof {
        assert(sv.take(0) =~= Seq::<ApuV>::empty());
    }
    while j < n
        invariant
            0 <= j <= n,
            s@.len() == n,
            sv == apu_view(s@),
            sv.len() == n,
            forall|k: int| 0 <= k < n ==> sv[k] == s@[k]@,
            savings_fold(v as int, rt as int, sv.take(j as int)) == Result::<int, ErrorV>::Ok(
                acc as int,
            ),
        decreases n - j,
    {
        proof {
            assert(sv.take(j as int + 1).drop_last() =~= sv.take(j as int));
            assert(sv.take(j as int + 1).last() == sv[j as int]);
        }
        let excl = match mul_div(v, s[j].vl_rec_brt as u128, rt) {
            Result::Ok(x) => x,
            Result::Err(e) => {
                proof {
                    lemma_savings_fold_err_prefix(v as int, rt as int, sv, j as int + 1);
                }
                return Result::Err(e);
            },
        };
        let sav = match mul_div(excl, s[j].aliq_cont as u128, 1000000) {
            Result::Ok(x) => x,
            Result::Err(e) => {
                proof {
                    lemma_savings_fold_err_prefix(v as int, rt as int, sv, j as int + 1);
                }
                return Result::Err(e);
            },
        };
        if sav > u128::MAX - acc {
            proof {
                lemma_savings_fold_err_prefix(v as int, rt as int, sv, j as int + 1);
            }
            return Result::Err(SpedError::ValueOverflow);
        }
        acc = acc + sav;
        j += 1;
    }
    proof {
        assert(sv.take(n as int) =~= sv);
    }
    Result::Ok(acc)
}

/// Computes the two estimated savings totals -- one per contribution type
/// -- from the flat summary and the two ordered assessment lists.
pub fn compute_savings(summary: &FlatSummary, m210: &Vec<Apuracao>, m610: &Vec<Apuracao>) -> (r:
    Result<(u128, u128), SpedError>)
    ensures
        match r {
            Result::Ok(p) => spec_savings(summary@, apu_view(m210@), apu_view(m610@)) == Result::<
                (int, int),
                ErrorV,
            >::Ok((p.0 as int, p.1 as int)),
            Result::Err(e) => spec_savings(summary@, apu_view(m210@), apu_view(m610@)) == Result::<
                (int, int),
                ErrorV,
            >::Err(e@),
        },
{
    if summary.c170 > u128::MAX - summary.c175 || summary.c170 + summary.c175 > u128::MAX
        - summary.c180 {
        return Result::Err(SpedError::ValueOverflow);
    }
    let v = summary.c170 + summary.c175 + summary.c180;
    let rt1 = match rev_sum_exec(m210) {
        Result::Ok(x) => x,
        Result::Err(e) => {
            return Result::Err(e);
        },
    };
    let rt2 = match rev_sum_exec(m610) {
        Result::Ok(x) => x,
        Result::Err(e) => {
            return Result::Err(e);
        },
    };
    let p = match savings_exec(v, rt1, m210) {
        Result::Ok(x) => x,
        Result::Err(e) => {
            return Result::Err(e);
        },
    };
    let c = match savings_exec(v, rt2, m610) {
        Result::Ok(x) => x,
        Result::Err(e) => {
            return Result::Err(e);
        },
    };
    Result::Ok((p, c))
}

} // verus!
