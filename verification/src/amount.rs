use vstd::prelude::*;
use crate::error::{ErrorV, SpedError};

verus! {

// Monetary and rate fields are fixed-point integers: the numeric value times
// 10^4, so four fractional digits are carried exactly.  A text field is
// parsable when it is a run of decimal digits, optionally split once by a
// comma or a period, with at most thirteen integer digits and at most four
// fractional digits.  Anything else -- including an absent field -- counts as
// unparsable and decodes to zero, the format's "best effort" policy for its
// many legitimately blank numeric fields.

/// The fixed-point scale: values carry four fractional digits.
pub const SCALE: u64 = 10000;

/// The largest decodable amount: thirteen integer digits and four
/// fractional digits, all nines.
pub const MAX_AMOUNT: u64 = 99_999_999_999_999_999;

pub open spec fn pow10(n: nat) -> int
    decreases n,
{
    if n == 0 {
        1
    } else {
        10 * pow10((n - 1) as nat)
    }
}

pub open spec fn is_digit(b: u8) -> bool {
    48 <= b <= 57
}

pub open spec fn is_sep(b: u8) -> bool {
    b == 44 || b == 46
}

pub open spec fn all_digits(s: Seq<u8>) -> bool {
    forall|i: int| 0 <= i < s.len() ==> is_digit(s[i])
}

/// The number denoted by a run of decimal digit bytes, most significant
/// first.
pub open spec fn digits_val(s: Seq<u8>) -> int
    decreases s.len(),
{
    if s.len() == 0 {
        0
    } else {
        digits_val(s.drop_last()) * 10 + (s.last() - 48)
    }
}

/// A field of digits alone: an integer with no fractional part.
pub open spec fn valid_plain(s: Seq<u8>) -> bool {
    1 <= s.len() <= 13 && all_digits(s)
}

/// A field split exactly once at position `i` by a decimal separator.
pub open spec fn valid_split_at(s: Seq<u8>, i: int) -> bool {
    &&& 0 <= i < s.len()
    &&& s.len() >= 2
    &&& is_sep(s[i])
    &&& all_digits(s.take(i))
    &&& all_digits(s.skip(i + 1))
    &&& i <= 13
    &&& s.len() - i - 1 <= 4
}

/// The fixed-point value of a field split at `i`.
pub open spec fn split_value(s: Seq<u8>, i: int) -> int {
    digits_val(s.take(i)) * 10000 + digits_val(s.skip(i + 1)) * pow10(
        (4 - (s.len() - i - 1)) as nat,
    )
}

pub open spec fn parsable(s: Seq<u8>) -> bool {
    valid_plain(s) || (exists|i: int| valid_split_at(s, i))
}

/// What a numeric text field decodes to: its fixed-point value when it fits
/// the grammar, and zero otherwise.
pub open spec fn spec_parse_amount(s: Seq<u8>) -> int {
    if valid_plain(s) {
        digits_val(s) * 10000
    } else if exists|i: int| valid_split_at(s, i) {
        split_value(s, choose|i: int| valid_split_at(s, i))
    } else {
        0
    }
}

/// A record's numeric field at position `i`: absent positions decode to zero.
pub open spec fn spec_field_amount(fields: Seq<Seq<u8>>, i: int) -> int {
    if 0 <= i < fields.len() {
        spec_parse_amount(fields[i])
    } else {
        0
    }
}

pub proof fn lemma_pow10_pos(n: nat)
    ensures
        pow10(n) >= 1,
    decreases n,
{
    if n > 0 {
        lemma_pow10_pos((n - 1) as nat);
    }
}

pub proof fn lemma_pow10_mono(a: nat, b: nat)
    requires
        a <= b,
    ensures
        pow10(a) <= pow10(b),
    decreases b,
{
    if a < b {
        lemma_pow10_mono(a, (b - 1) as nat);
        lemma_pow10_pos((b - 1) as nat);
    }
}

pub proof fn lemma_digits_val_bounds(s: Seq<u8>)
    requires
        all_digits(s),
    ensures
        0 <= digits_val(s) < pow10(s.len()),
    decreases s.len(),
{
    if s.len() > 0 {
        assert(all_digits(s.drop_last()));
        lemma_digits_val_bounds(s.drop_last());
    }
}

/// A parsable field never exceeds `MAX_AMOUNT`; an unparsable one is zero.
pub proof fn lemma_parse_amount_bounds(s: Seq<u8>)
    ensures
        0 <= spec_parse_amount(s) <= MAX_AMOUNT,
{
    reveal_with_fuel(pow10, 15);
    if valid_plain(s) {
        lemma_digits_val_bounds(s);
        lemma_pow10_mono(s.len(), 13);
        assert(digits_val(s) * 10000 <= (pow10(13) - 1) * 10000) by (nonlinear_arith)
            requires
                0 <= digits_val(s) <= pow10(13) - 1,
        ;
    } else if exists|i: int| valid_split_at(s, i) {
        let i = choose|i: int| valid_split_at(s, i);
        let f = s.skip(i + 1);
        lemma_digits_val_bounds(s.take(i));
        lemma_digits_val_bounds(f);
        lemma_pow10_mono(s.take(i).len(), 13);
        assert(digits_val(s.take(i)) * 10000 <= (pow10(13) - 1) * 10000) by (nonlinear_arith)
            requires
                digits_val(s.take(i)) <= pow10(13) - 1,
        ;
        assert(digits_val(f) * pow10((4 - f.len()) as nat) <= (pow10(f.len()) - 1) * pow10(
            (4 - f.len()) as nat,
        )) by (nonlinear_arith)
            requires
                digits_val(f) <= pow10(f.len()) - 1,
                pow10((4 - f.len()) as nat) >= 1,
        ;
        assert(pow10(f.len()) * pow10((4 - f.len()) as nat) == pow10(4)) by {
            lemma_pow10_adds(f.len(), (4 - f.len()) as nat);
        }
        assert((pow10(f.len()) - 1) * pow10((4 - f.len()) as nat) == pow10(f.len()) * pow10(
            (4 - f.len()) as nat,
        ) - pow10((4 - f.len()) as nat)) by (nonlinear_arith);
        lemma_pow10_pos((4 - f.len()) as nat);
        assert(digits_val(f) * pow10((4 - f.len()) as nat) >= 0) by (nonlinear_arith)
            requires
                digits_val(f) >= 0,
                pow10((4 - f.len()) as nat) >= 1,
        ;
    }
}

pub proof fn lemma_pow10_adds(a: nat, b: nat)
    ensures
        pow10(a) * pow10(b) == pow10((a + b) as nat),
    decreases a,
{
    if a == 0 {
    } else {
        lemma_pow10_adds((a - 1) as nat, b);
        assert(pow10(a) * pow10(b) == 10 * (pow10((a - 1) as nat) * pow10(b)))
            by (nonlinear_arith)
            requires
                pow10(a) == 10 * pow10((a - 1) as nat),
        ;
    }
}

/// A field has at most one separator position that satisfies the grammar, so
/// the decoded value is determined by any witness split.
pub proof fn lemma_split_unique(s: Seq<u8>, i: int)
    requires
        valid_split_at(s, i),
    ensures
        spec_parse_amount(s) == split_value(s, i),
{
    assert(!is_digit(s[i]));
    assert(!valid_plain(s));
    let c = choose|j: int| valid_split_at(s, j);
    assert(valid_split_at(s, c));
    if c < i {
        assert(is_digit(s.take(i)[c]));
        assert(false);
    } else if c > i {
        assert(is_digit(s.take(c)[i]));
        assert(false);
    }
}

/// Decodes one numeric text field to its fixed-point value; anything outside
/// the grammar yields zero.
pub fn parse_amount(s: &Vec<u8>) -> (r: u64)
    ensures
        r == spec_parse_amount(s@),
        r <= MAX_AMOUNT,
{
    proof {
        lemma_parse_amount_bounds(s@);
    }
    let n = s.len();
    // find the first separator, if any
    let mut j: usize = 0;
    let mut sep: usize = n;
    let mut found = false;
    while j < n
        invariant
            0 <= j <= n == s@.len(),
            !found ==> sep == n && (forall|k: int| 0 <= k < j ==> !is_sep(s@[k])),
            found ==> sep < j && is_sep(s@[sep as int]) && (forall|k: int|
                0 <= k < sep ==> !is_sep(s@[k])),
        decreases n - j,
    {
        if !found && (s[j] == 44 || s[j] == 46) {
            sep = j;
            found = true;
        }
        j += 1;
    }
    if !found {
        // no separator anywhere: no split can be valid
        assert(forall|i: int| 0 <= i < s@.len() ==> !is_sep(s@[i]));
        assert(!(exists|i: int| valid_split_at(s@, i)));
        if n == 0 || n > 13 {
            return 0;
        }
        match digits_value(s, 0, n) {
            Option::Some(v) => {
                proof {
                    assert(s@.subrange(0, n as int) =~= s@);
                }
                v * 10000
            },
            Option::None => {
                proof {
                    assert(s@.subrange(0, n as int) =~= s@);
                }
                0
            },
        }
    } else {
        // the only candidate split is the first separator
        assert forall|i: int| valid_split_at(s@, i) implies i == sep as int by {
            if i < sep as int {
                assert(!is_sep(s@[i]));
            } else if i > sep as int {
                assert(is_digit(s@.take(i)[sep as int]));
            }
        }
        assert(!valid_plain(s@)) by {
            assert(!is_digit(s@[sep as int]));
        }
        if n < 2 || sep > 13 || n - sep - 1 > 4 {
            return 0;
        }
        let ip = digits_value(s, 0, sep);
        let fp = digits_value(s, sep + 1, n);
        match (ip, fp) {
            (Option::Some(iv), Option::Some(fv)) => {
                proof {
                    assert(s@.subrange(0, sep as int) =~= s@.take(sep as int));
                    assert(s@.subrange(sep as int + 1, n as int) =~= s@.skip(sep as int + 1));
                    assert(valid_split_at(s@, sep as int));
                    lemma_split_unique(s@, sep as int);
                    lemma_digits_val_bounds(s@.take(sep as int));
                    lemma_digits_val_bounds(s@.skip(sep as int + 1));
                    lemma_pow10_mono(s@.take(sep as int).len(), 13);
                    reveal_with_fuel(pow10, 15);
                    assert(iv * 10000 <= (pow10(13) - 1) * 10000) by (nonlinear_arith)
                        requires
                            0 <= iv <= pow10(13) - 1,
                    ;
                }
                let mult = frac_multiplier(n - sep - 1);
                proof {
                    let f = s@.skip(sep as int + 1);
                    assert(fv * mult <= (pow10(f.len()) - 1) * pow10((4 - f.len()) as nat))
                        by (nonlinear_arith)
                        requires
                            0 <= fv <= pow10(f.len()) - 1,
                            mult == pow10((4 - f.len()) as nat),
                            mult >= 1,
                    ;
                    lemma_pow10_adds(f.len(), (4 - f.len()) as nat);
                }
                iv * 10000 + fv * mult
            },
            _ => {
                proof {
                    assert(s@.subrange(0, sep as int) =~= s@.take(sep as int));
                    assert(s@.subrange(sep as int + 1, n as int) =~= s@.skip(sep as int + 1));
                    assert(!(exists|i: int| valid_split_at(s@, i)));
                }
                0
            },
        }
    }
}

/// `pow10(4 - frac_len)`, the weight of a fractional part of `frac_len`
/// digits.
fn frac_multiplier(frac_len: usize) -> (r: u64)
    requires
        frac_len <= 4,
    ensures
        r == pow10((4 - frac_len) as nat),
        r >= 1,
{
    proof {
        reveal_with_fuel(pow10, 5);
    }
    if frac_len == 0 {
        10000
    } else if frac_len == 1 {
        1000
    } else if frac_len == 2 {
        100
    } else if frac_len == 3 {
        10
    } else {
        1
    }
}

/// Reads the digit run `s[from..to]` as a number; `None` on any non-digit.
fn digits_value(s: &Vec<u8>, from: usize, to: usize) -> (r: Option<u64>)
    requires
        from <= to <= s@.len(),
        to - from <= 13,
    ensures
        match r {
            Option::Some(v) => all_digits(s@.subrange(from as int, to as int)) && v == digits_val(
                s@.subrange(from as int, to as int),
            ),
            Option::None => !all_digits(s@.subrange(from as int, to as int)),
        },
{
    let mut val: u64 = 0;
    let mut j = from;
    while j < to
        invariant
            from <= j <= to <= s@.len(),
            to - from <= 13,
            all_digits(s@.subrange(from as int, j as int)),
            val == digits_val(s@.subrange(from as int, j as int)),
            val < pow10((j - from) as nat),
        decreases to - j,
    {
        let b = s[j];
        if b < 48 || b > 57 {
            proof {
                assert(!is_digit(s@.subrange(from as int, to as int)[j - from]));
            }
            return Option::None;
        }
        proof {
            let pre = s@.subrange(from as int, j as int);
            let post = s@.subrange(from as int, j as int + 1);
            assert(post.drop_last() =~= pre);
            lemma_pow10_mono((j - from) as nat, 12);
            reveal_with_fuel(pow10, 15);
            lemma_digits_val_bounds(pre);
        }
        val = val * 10 + (b - 48) as u64;
        j += 1;
    }
    proof {
        assert(s@.subrange(from as int, j as int) =~= s@.subrange(from as int, to as int));
    }
    Option::Some(val)
}

/// Decodes the numeric field at position `i` of a record, an absent
/// position counting as zero.
pub fn field_amount(fields: &Vec<Vec<u8>>, i: usize) -> (r: u64)
    ensures
        r == spec_field_amount(crate::tokenize::seqs_of(fields@), i as int),
        r <= MAX_AMOUNT,
{
    if i < fields.len() {
        let r = parse_amount(&fields[i]);
        proof {
            assert(crate::tokenize::seqs_of(fields@)[i as int] == fields@[i as int]@);
        }
        r
    } else {
        0
    }
}

// ------------------------------------------------------------------
// Rendering: monetary values are shown with exactly two decimal places.
// ------------------------------------------------------------------

/// The decimal digit bytes of `n`, most significant first.
pub open spec fn spec_digits(n: int) -> Seq<u8>
    decreases n,
{
    if n < 10 {
        seq![(48 + n) as u8]
    } else {
        spec_digits(n / 10).push((48 + n % 10) as u8)
    }
}

/// A fixed-point amount rendered with a comma separator and exactly two
/// decimal places, further fractional digits truncated.
pub open spec fn spec_render_amount(v: int) -> Seq<u8> {
    spec_digits(v / 10000) + seq![
        44u8,
        (48 + (v % 10000) / 100 / 10) as u8,
        (48 + (v % 10000) / 100 % 10) as u8,
    ]
}

fn push_digits(n: u128, out: &mut Vec<u8>)
    ensures
        final(out)@ == old(out)@ + spec_digits(n as int),
    decreases n,
{
    if n < 10 {
        out.push(48 + n as u8);
        proof {
            assert(final(out)@ =~= old(out)@ + spec_digits(n as int));
        }
    } else {
        push_digits(n / 10, out);
        out.push(48 + (n % 10) as u8);
        proof {
            assert(final(out)@ =~= old(out)@ + spec_digits(n as int));
        }
    }
}

/// Renders a fixed-point amount with exactly two decimal places.
pub fn render_amount(v: u128) -> (r: Vec<u8>)
    ensures
        r@ == spec_render_amount(v as int),
{
    let mut out: Vec<u8> = Vec::new();
    push_digits(v / 10000, &mut out);
    out.push(44);
    let c = ((v % 10000) / 100) as u8;
    out.push(48 + c / 10);
    out.push(48 + c % 10);
    proof {
        assert(out@ =~= spec_render_amount(v as int));
    }
    out
}

proof fn lemma_digits_shape(n: int)
    requires
        n >= 0,
    ensures
        all_digits(spec_digits(n)),
        digits_val(spec_digits(n)) == n,
        spec_digits(n).len() >= 1,
    decreases n,
{
    vstd::arithmetic::div_mod::lemma_fundamental_div_mod(n, 10);
    if n < 10 {
        assert(spec_digits(n) =~= seq![(48 + n) as u8]);
        assert(seq![(48 + n) as u8].drop_last() =~= Seq::<u8>::empty());
        assert(digits_val(spec_digits(n)) == digits_val(Seq::<u8>::empty()) * 10 + ((48 + n) as u8
            - 48));
    } else {
        lemma_digits_shape(n / 10);
        let p = spec_digits(n / 10);
        let d = (48 + n % 10) as u8;
        assert(spec_digits(n) == p.push(d));
        assert forall|i: int| 0 <= i < spec_digits(n).len() implies is_digit(
            spec_digits(n)[i],
        ) by {
            if i < p.len() {
                assert(spec_digits(n)[i] == p[i]);
            } else {
                assert(spec_digits(n)[i] == d);
            }
        }
        assert(p.push(d).drop_last() =~= p);
        assert(digits_val(spec_digits(n)) == digits_val(p) * 10 + (d - 48));
    }
}

proof fn lemma_digits_len(n: int, k: nat)
    requires
        0 <= n < pow10(k),
        k >= 1,
    ensures
        spec_digits(n).len() <= k,
    decreases n,
{
    if n >= 10 {
        vstd::arithmetic::div_mod::lemma_fundamental_div_mod(n, 10);
        if k == 1 {
            reveal_with_fuel(pow10, 2);
            assert(false);
        }
        assert(n / 10 < pow10((k - 1) as nat)) by {
            if n / 10 >= pow10((k - 1) as nat) {
                assert(10 * (n / 10) >= 10 * pow10((k - 1) as nat)) by (nonlinear_arith)
                    requires
                        n / 10 >= pow10((k - 1) as nat),
                ;
            }
        }
        lemma_digits_len(n / 10, (k - 1) as nat);
    }
}

/// Round trip: a value of at most thirteen integer digits and at most two
/// fractional digits, rendered and decoded again, comes back unchanged.
pub proof fn lemma_parse_render_round_trip(q: int, c: int)
    requires
        0 <= q < pow10(13),
        0 <= c < 100,
    ensures
        spec_parse_amount(spec_render_amount(q * 10000 + c * 100)) == q * 10000 + c * 100,
{
    let v = q * 10000 + c * 100;
    vstd::arithmetic::div_mod::lemma_fundamental_div_mod_converse(v, 10000, q, c * 100);
    assert(v / 10000 == q && v % 10000 == c * 100);
    vstd::arithmetic::div_mod::lemma_fundamental_div_mod_converse(c * 100, 100, c, 0);
    assert((v % 10000) / 100 == c);
    vstd::arithmetic::div_mod::lemma_fundamental_div_mod(c, 10);
    let r = spec_render_amount(v);
    let ip = spec_digits(q);
    lemma_digits_shape(q);
    lemma_digits_len(q, 13);
    let i = ip.len() as int;
    let d1 = (48 + c / 10) as u8;
    let d2 = (48 + c % 10) as u8;
    assert(r == ip + seq![44u8, d1, d2]);
    assert(r.len() == i + 3);
    assert(r[i] == 44);
    assert(r.take(i) =~= ip);
    assert(r.skip(i + 1) =~= seq![d1, d2]);
    assert(0 <= c / 10 <= 9 && 0 <= c % 10 <= 9);
    assert(all_digits(seq![d1, d2]));
    assert(valid_split_at(r, i));
    lemma_split_unique(r, i);
    assert(seq![d1, d2].drop_last() =~= seq![d1]);
    assert(seq![d1].drop_last() =~= Seq::<u8>::empty());
    assert(digits_val(seq![d1]) == digits_val(Seq::<u8>::empty()) * 10 + (d1 - 48));
    assert(digits_val(seq![d1]) == c / 10);
    assert(digits_val(seq![d1, d2]) == digits_val(seq![d1]) * 10 + (d2 - 48));
    assert(digits_val(seq![d1, d2]) == ((c / 10) * 10 + c % 10));
    assert(digits_val(seq![d1, d2]) == c);
    reveal_with_fuel(pow10, 5);
    assert(split_value(r, i) == q * 10000 + c * 100);
}

// ------------------------------------------------------------------
// The proportional split `b * s / t`, the heart of both finalization
// steps and of the savings calculator.
// ------------------------------------------------------------------

/// `b * s / t` in fixed-point arithmetic.  A zero divisor yields zero by
/// design: an accrual or revenue total of zero apportions nothing, rather
/// than propagating a non-finite value.  A product beyond `u128` is an
/// explicit overflow error.
pub open spec fn spec_mul_div(b: int, s: int, t: int) -> Result<int, ErrorV> {
    if t == 0 {
        Result::Ok(0)
    } else if b * s > u128::MAX {
        Result::Err(ErrorV::ValueOverflow)
    } else {
        Result::Ok(b * s / t)
    }
}

pub fn mul_div(b: u128, s: u128, t: u128) -> (r: Result<u128, SpedError>)
    ensures
        match r {
            Result::Ok(v) => spec_mul_div(b as int, s as int, t as int) == Result::<
                int,
                ErrorV,
            >::Ok(v as int),
            Result::Err(e) => spec_mul_div(b as int, s as int, t as int) == Result::<
                int,
                ErrorV,
            >::Err(e@),
        },
{
    if t == 0 {
        Result::Ok(0)
    } else if s == 0 {
        Result::Ok(0)
    } else if b > u128::MAX / s {
        proof {
            let m = u128::MAX as int;
            let q = m / s as int;
            vstd::arithmetic::div_mod::lemma_fundamental_div_mod(m, s as int);
            assert(b as int * s as int >= (q + 1) * s as int) by (nonlinear_arith)
                requires
                    b as int >= q + 1,
                    s as int >= 1,
            ;
            assert((q + 1) * s as int == q * s as int + s as int) by (nonlinear_arith);
            assert(q * s as int + s as int > m);
        }
        Result::Err(SpedError::ValueOverflow)
    } else {
        proof {
            let m = u128::MAX as int;
            let q = m / s as int;
            vstd::arithmetic::div_mod::lemma_fundamental_div_mod(m, s as int);
            assert(b as int * s as int <= q * s as int) by (nonlinear_arith)
                requires
                    b as int <= q,
                    s as int >= 1,
            ;
            assert(q * s as int <= m);
        }
        let p = b * s;
        Result::Ok(p / t)
    }
}

} // verus!
