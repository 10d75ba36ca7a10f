use vstd::prelude::*;
use crate::amount::is_digit;

verus! {

// The checksum-digit validator for the taxpayer identifier (CNPJ), used
// only to classify input files by role: fourteen digits, not all equal,
// with two weighted-modulo check digits.

/// The digit values found in `s`, in order, everything else dropped.
pub open spec fn digit_seq(s: Seq<u8>) -> Seq<u8>
    decreases s.len(),
{
    if s.len() == 0 {
        Seq::empty()
    } else {
        let p = digit_seq(s.drop_last());
        if is_digit(s.last()) {
            p.push((s.last() - 48) as u8)
        } else {
            p
        }
    }
}

/// The first checksum's weighted digit sum over positions `0 .. n`.
pub open spec fn wsum1(d: Seq<u8>, n: int) -> int
    decreases n,
{
    if n <= 0 {
        0
    } else {
        wsum1(d, n - 1) + d[n - 1] * (if n - 1 < 4 {
            5 - (n - 1)
        } else {
            13 - (n - 1)
        })
    }
}

/// The second checksum's weighted digit sum over positions `0 .. n`.
pub open spec fn wsum2(d: Seq<u8>, n: int) -> int
    decreases n,
{
    if n <= 0 {
        0
    } else {
        wsum2(d, n - 1) + d[n - 1] * (if n - 1 < 5 {
            6 - (n - 1)
        } else {
            14 - (n - 1)
        })
    }
}

/// The check digit demanded by a weighted sum: remainders below two give
/// zero, the rest give their complement to eleven.
pub open spec fn check_digit(sum: int) -> int {
    if sum % 11 < 2 {
        0
    } else {
        11 - sum % 11
    }
}

/// A valid taxpayer identifier: exactly fourteen digits, not all equal,
/// whose last two digits are the two weighted checksums of the rest.
pub open spec fn spec_cnpj_valid(s: Seq<u8>) -> bool {
    let d = digit_seq(s);
    &&& d.len() == 14
    &&& !(forall|i: int| 1 <= i < 14 ==> #[trigger] d[i] == d[i - 1])
    &&& d[12] == check_digit(wsum1(d, 12))
    &&& d[13] == check_digit(wsum2(d, 13))
}

proof fn lemma_digit_seq_vals(s: Seq<u8>)
    ensures
        forall|i: int| 0 <= i < digit_seq(s).len() ==> digit_seq(s)[i] <= 9,
    decreases s.len(),
{
    if s.len() > 0 {
        lemma_digit_seq_vals(s.drop_last());
        if is_digit(s.last()) {
            let p = digit_seq(s.drop_last());
            assert forall|i: int| 0 <= i < digit_seq(s).len() implies digit_seq(s)[i] <= 9 by {
                if i < p.len() {
                    assert(digit_seq(s)[i] == p[i]);
                } else {
                    assert(digit_seq(s)[i] == (s.last() - 48) as u8);
                }
            }
        }
    }
}

/// Decides whether a text field holds a valid taxpayer identifier.
pub fn is_cnpj_valid(field: &Vec<u8>) -> (r: bool)
    ensures
        r == spec_cnpj_valid(field@),
{
    let n = field.len();
    let mut d: Vec<u8> = Vec::new();
    let mut j: usize = 0;
    proof {
        assert(field@.take(0) =~= Seq::<u8>::empty());
        assert(d@ =~= digit_seq(field@.take(0)));
    }
    while j < n
        invariant
            0 <= j <= n,
            field@.len() == n,
            d@ == digit_seq(field@.take(j as int)),
            d@.len() <= j,
        decreases n - j,
    {
        proof {
            assert(field@.take(j as int + 1).drop_last() =~= field@.take(j as int));
            assert(field@.take(j as int + 1).last() == field@[j as int]);
        }
        let b = field[j];
        if b >= 48 && b <= 57 {
            d.push(b - 48);
        }
        j += 1;
    }
    proof {
        assert(field@.take(n as int) =~= field@);
        lemma_digit_seq_vals(field@);
    }
    if d.len() != 14 {
        return false;
    }
    let mut all_eq = true;
    let mut i: usize = 1;
    while i < 14
        invariant
            1 <= i <= 14,
            d@.len() == 14,
            d@ == digit_seq(field@),
            all_eq == (forall|k: int| 1 <= k < i ==> #[trigger] d@[k] == d@[k - 1]),
        decreases 14 - i,
    {
        all_eq = all_eq && d[i] == d[i - 1];
        i += 1;
    }
    if all_eq {
        return false;
    }
    let mut sum1: u32 = 0;
    let mut i: usize = 0;
    while i < 12
        invariant
            0 <= i <= 12,
            d@.len() == 14,
            d@ == digit_seq(field@),
            forall|k: int| 0 <= k < 14 ==> d@[k] <= 9,
            sum1 == wsum1(d@, i as int),
            sum1 <= 81 * i,
        decreases 12 - i,
    {
        let w: u32 = if i < 4 {
            5 - i as u32
        } else {
            13 - i as u32
        };
        let dv = d[i] as u32;
        proof {
            assert(dv * w <= 81) by (nonlinear_arith)
                requires
                    dv <= 9,
                    w <= 9,
            ;
        }
        sum1 = sum1 + dv * w;
        i += 1;
    }
    let mut sum2: u32 = 0;
    let mut i: usize = 0;
    while i < 13
        invariant
            0 <= i <= 13,
            d@.len() == 14,
            d@ == digit_seq(field@),
            forall|k: int| 0 <= k < 14 ==> d@[k] <= 9,
            sum2 == wsum2(d@, i as int),
            sum2 <= 81 * i,
        decreases 13 - i,
    {
        let w: u32 = if i < 5 {
            6 - i as u32
        } else {
            14 - i as u32
        };
        let dv = d[i] as u32;
        proof {
            assert(dv * w <= 81) by (nonlinear_arith)
                requires
                    dv <= 9,
                    w <= 9,
            ;
        }
        sum2 = sum2 + dv * w;
        i += 1;
    }
    let cd1: u32 = if sum1 % 11 < 2 {
        0
    } else {
        11 - sum1 % 11
    };
    let cd2: u32 = if sum2 % 11 < 2 {
        0
    } else {
        11 - sum2 % 11
    };
    (d[12] as u32) == cd1 && (d[13] as u32) == cd2
}

} // verus!
