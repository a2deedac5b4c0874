//! Exact decimal magnitudes.
//!
//! The size the user types is decimal text: an optional sign, digits, and at
//! most one decimal point. Rather than rounding through machine floats, the
//! conversion to a byte count is computed exactly: for a magnitude
//! `w.f` (whole part `w`, fraction digits `f` of length `k`) and a unit
//! multiplier `m`, the byte count is `floor((w + f / 10^k) * m)`, which
//! equals `w * m + (m * f) / 10^k` in integer arithmetic. Results beyond
//! `u64::MAX` saturate.

use crate::units::{spec_multiplier, spec_unit_of_tag, Unit};
use vstd::arithmetic::div_mod::{
    lemma_div_denominator, lemma_hoist_over_denominator, lemma_multiply_divide_lt,
};
use vstd::prelude::*;

verus! {

/// Whether `c` is an ASCII decimal digit.
pub open spec fn is_digit(c: char) -> bool {
    48 <= c as int <= 57
}

/// Numeric value of an ASCII decimal digit.
pub open spec fn digit_val(c: char) -> nat {
    (c as int - 48) as nat
}

/// Whether every character of `s` is an ASCII decimal digit.
pub open spec fn all_digits(s: Seq<char>) -> bool {
    forall|i: int| 0 <= i < s.len() ==> is_digit(s[i])
}

/// Value of a digit string read most-significant first; empty reads as 0.
pub open spec fn digits_val(s: Seq<char>) -> nat
    decreases s.len(),
{
    if s.len() == 0 {
        0
    } else {
        digits_val(s.drop_last()) * 10 + digit_val(s.last())
    }
}

/// `10^n`.
pub open spec fn pow10(n: nat) -> nat
    decreases n,
{
    if n == 0 {
        1
    } else {
        10 * pow10((n - 1) as nat)
    }
}

/// Index of the first `'.'` in `s`, or `s.len()` if there is none.
pub open spec fn first_dot(s: Seq<char>) -> int
    decreases s.len(),
{
    if s.len() == 0 {
        0
    } else if s[0] == '.' {
        0
    } else {
        1 + first_dot(s.drop_first())
    }
}

/// Length of a leading sign: 1 if `s` starts with `'+'` or `'-'`, else 0.
pub open spec fn sign_len(s: Seq<char>) -> int {
    if s.len() > 0 && (s[0] == '+' || s[0] == '-') {
        1
    } else {
        0
    }
}

/// Whether `s` carries a leading minus sign.
pub open spec fn is_negative(s: Seq<char>) -> bool {
    s.len() > 0 && s[0] == '-'
}

/// The part of `s` after any sign: digits and at most one decimal point.
pub open spec fn body_of(s: Seq<char>) -> Seq<char> {
    s.subrange(sign_len(s), s.len() as int)
}

/// Digits before the decimal point (may be empty, as in `".5"`).
pub open spec fn whole_digits(s: Seq<char>) -> Seq<char> {
    body_of(s).subrange(0, first_dot(body_of(s)))
}

/// Digits after the decimal point (may be empty, as in `"1."` or `"7"`).
pub open spec fn frac_digits(s: Seq<char>) -> Seq<char> {
    let b = body_of(s);
    if first_dot(b) < b.len() {
        b.subrange(first_dot(b) + 1, b.len() as int)
    } else {
        Seq::empty()
    }
}

/// Whether `s` is decimal text: an optional sign, then digits with at most
/// one decimal point, and at least one digit somewhere.
pub open spec fn is_decimal(s: Seq<char>) -> bool {
    &&& all_digits(whole_digits(s))
    &&& all_digits(frac_digits(s))
    &&& whole_digits(s).len() + frac_digits(s).len() >= 1
}

/// Whether decimal text `s` denotes a strictly positive magnitude: no minus
/// sign and at least one nonzero digit.
pub open spec fn magnitude_positive(s: Seq<char>) -> bool {
    &&& is_decimal(s)
    &&& !is_negative(s)
    &&& digits_val(whole_digits(s)) + digits_val(frac_digits(s)) > 0
}

/// Exact byte count of decimal magnitude `s` under byte multiplier `m`:
/// `floor(magnitude * m)`.
pub open spec fn scaled_bytes(s: Seq<char>, m: nat) -> nat {
    digits_val(whole_digits(s)) * m + (m * digits_val(frac_digits(s))) / pow10(
        frac_digits(s).len(),
    )
}

/// `n` clamped to the `u64` range.
pub open spec fn sat_u64(n: nat) -> nat {
    if n > u64::MAX {
        u64::MAX as nat
    } else {
        n
    }
}

/// `10^n` is positive.
proof fn lemma_pow10_pos(n: nat)
    ensures
        pow10(n) >= 1,
    decreases n,
{
    if n > 0 {
        lemma_pow10_pos((n - 1) as nat);
    }
}

/// The first-dot index is in range, points at a dot when in range, and
/// nothing before it is a dot.
proof fn lemma_first_dot(s: Seq<char>)
    ensures
        0 <= first_dot(s) <= s.len(),
        first_dot(s) < s.len() ==> s[first_dot(s)] == '.',
        forall|j: int| 0 <= j < first_dot(s) ==> s[j] != '.',
    decreases s.len(),
{
    if s.len() > 0 && s[0] != '.' {
        lemma_first_dot(s.drop_first());
        assert forall|j: int| 0 <= j < first_dot(s) implies s[j] != '.' by {
            if j > 0 {
                assert(s.drop_first()[j - 1] == s[j]);
            }
        }
    }
}

/// A digit string is bounded by `10^len`.
proof fn lemma_digits_val_bound(s: Seq<char>)
    requires
        all_digits(s),
    ensures
        digits_val(s) < pow10(s.len()),
    decreases s.len(),
{
    if s.len() > 0 {
        assert(all_digits(s.drop_last())) by {
            assert(forall|j: int| 0 <= j < s.len() - 1 ==> s.drop_last()[j] == s[j]);
        }
        lemma_digits_val_bound(s.drop_last());
        assert(digit_val(s.last()) <= 9);
        assert(pow10(s.len()) == 10 * pow10((s.len() - 1) as nat));
    }
}

/// A digit string reads as zero exactly when every digit is `'0'`.
proof fn lemma_digits_val_zero(s: Seq<char>)
    ensures
        (digits_val(s) == 0) <==> (forall|j: int| 0 <= j < s.len() ==> digit_val(s[j]) == 0),
    decreases s.len(),
{
    if s.len() > 0 {
        lemma_digits_val_zero(s.drop_last());
        if digits_val(s) == 0 {
            assert(forall|j: int| 0 <= j < s.len() - 1 ==> digit_val(s.drop_last()[j]) == 0);
            assert(forall|j: int|
                0 <= j < s.len() ==> digit_val(s[j]) == 0) by {
                assert(forall|j: int| 0 <= j < s.len() - 1 ==> s.drop_last()[j] == s[j]);
                assert(digit_val(s.last()) == 0);
            }
        }
        if forall|j: int| 0 <= j < s.len() ==> digit_val(s[j]) == 0 {
            assert(forall|j: int| 0 <= j < s.len() - 1 ==> digit_val(s.drop_last()[j]) == 0);
        }
    }
}

/// Reading a digit string most-significant first: the leading digit carries
/// weight `10^(len-1)`.
proof fn lemma_digits_val_first(s: Seq<char>)
    requires
        s.len() > 0,
    ensures
        digits_val(s) == digit_val(s[0]) * pow10((s.len() - 1) as nat) + digits_val(
            s.drop_first(),
        ),
    decreases s.len(),
{
    assert(digits_val(Seq::<char>::empty()) == 0);
    if s.len() == 1 {
        assert(s.drop_last() =~= Seq::<char>::empty());
        assert(s.drop_first() =~= Seq::<char>::empty());
        assert(digits_val(s) == digits_val(s.drop_last()) * 10 + digit_val(s.last()));
        assert(digits_val(s) == digit_val(s[0]));
        assert(pow10(0) == 1);
    } else {
        let t = s.drop_last();
        let d0 = digit_val(s[0]);
        let p = pow10((s.len() - 2) as nat);
        lemma_digits_val_first(t);
        assert(t[0] == s[0]);
        assert(digits_val(t) == d0 * p + digits_val(t.drop_first()));
        assert(digits_val(s) == digits_val(t) * 10 + digit_val(s.last()));
        assert(digits_val(s) == (d0 * p + digits_val(t.drop_first())) * 10 + digit_val(s.last()));
        assert((d0 * p + digits_val(t.drop_first())) * 10 == d0 * p * 10 + digits_val(
            t.drop_first(),
        ) * 10) by (nonlinear_arith);
        assert(pow10((s.len() - 1) as nat) == 10 * p);
        assert(d0 * p * 10 == d0 * (10 * p)) by (nonlinear_arith);
        assert(t.drop_first() =~= s.drop_first().drop_last());
        assert(s.drop_first().last() == s.last());
        assert(digits_val(s.drop_first()) == digits_val(t.drop_first()) * 10 + digit_val(s.last()));
    }
}

/// Index of the first `'.'` at or after `start`, or the length if none.
fn first_dot_from(s: &str, start: usize) -> (i: usize)
    requires
        start <= s@.len(),
    ensures
        start <= i <= s@.len(),
        forall|j: int| start <= j < i ==> s@[j] != '.',
        i < s@.len() ==> s@[i as int] == '.',
{
    let n = s.unicode_len();
    let mut i = start;
    while i < n
        invariant
            start <= i <= n,
            n == s@.len(),
            forall|j: int| start <= j < i ==> s@[j] != '.',
        decreases n - i,
    {
        if s.get_char(i) == '.' {
            return i;
        }
        i += 1;
    }
    i
}

/// Whether every character of `s` in `[from, to)` is an ASCII digit.
fn all_digits_range(s: &str, from: usize, to: usize) -> (b: bool)
    requires
        from <= to <= s@.len(),
    ensures
        b == all_digits(s@.subrange(from as int, to as int)),
{
    let mut i = from;
    while i < to
        invariant
            from <= i <= to <= s@.len(),
            forall|j: int| from <= j < i ==> is_digit(s@[j]),
        decreases to - i,
    {
        let c = s.get_char(i);
        let v = c as u32;
        if !(48 <= v && v <= 57) {
            assert(!is_digit(s@[i as int]));
            assert(s@.subrange(from as int, to as int)[i - from] == s@[i as int]);
            return false;
        }
        i += 1;
    }
    assert forall|j: int|
        0 <= j < s@.subrange(from as int, to as int).len() implies is_digit(
        s@.subrange(from as int, to as int)[j],
    ) by {
        assert(s@.subrange(from as int, to as int)[j] == s@[from + j]);
    }
    true
}

/// Whether some character of `s` in `[from, to)` is a nonzero digit.
fn any_nonzero_digit(s: &str, from: usize, to: usize) -> (b: bool)
    requires
        from <= to <= s@.len(),
        all_digits(s@.subrange(from as int, to as int)),
    ensures
        b == exists|j: int| from <= j < to && digit_val(s@[j]) != 0,
{
    let mut i = from;
    while i < to
        invariant
            from <= i <= to <= s@.len(),
            all_digits(s@.subrange(from as int, to as int)),
            forall|j: int| from <= j < i ==> digit_val(s@[j]) == 0,
        decreases to - i,
    {
        let c = s.get_char(i);
        let v = c as u32;
        if v != 48 {
            assert(s@.subrange(from as int, to as int)[i - from] == s@[i as int]);
            assert(is_digit(s@.subrange(from as int, to as int)[i - from]));
            assert(is_digit(c));
            assert(digit_val(s@[i as int]) != 0);
            return true;
        }
        assert(digit_val(s@[i as int]) == 0);
        i += 1;
    }
    false
}

/// Split `s` into its sign length and the absolute index of the first
/// decimal point of the body, locating the whole and fraction digit runs.
fn scan_parts(s: &str) -> (parts: (usize, usize))
    ensures
        ({
            let (start, dot) = parts;
            &&& start == sign_len(s@)
            &&& start <= dot <= s@.len()
            &&& whole_digits(s@) == s@.subrange(start as int, dot as int)
            &&& (dot < s@.len() ==> frac_digits(s@) == s@.subrange(dot + 1, s@.len() as int))
            &&& (dot == s@.len() ==> frac_digits(s@) == Seq::<char>::empty())
        }),
{
    let n = s.unicode_len();
    let start: usize = if n > 0 {
        let c0 = s.get_char(0);
        if c0 == '+' || c0 == '-' {
            1
        } else {
            0
        }
    } else {
        0
    };
    let dot = first_dot_from(s, start);
    proof {
        let b = body_of(s@);
        let fd = first_dot(b);
        lemma_first_dot(b);
        assert(forall|j: int| 0 <= j < b.len() ==> b[j] == s@[start + j]);
        // The scanned index and the spec-level first dot coincide.
        if fd < dot - start {
            assert(b[fd] == '.');
            assert(s@[start + fd] == '.');
            assert(false);
        }
        if fd > dot - start {
            assert(dot < s@.len());
            assert(b[dot - start] == '.');
            assert(false);
        }
        assert(fd == dot - start);
        assert(whole_digits(s@) =~= s@.subrange(start as int, dot as int));
        if dot < s@.len() {
            assert(frac_digits(s@) =~= s@.subrange(dot + 1, s@.len() as int));
        } else {
            assert(frac_digits(s@) =~= Seq::<char>::empty());
        }
    }
    (start, dot)
}

/// Whether `s` is decimal text: optional sign, digits, at most one decimal
/// point, at least one digit.
pub fn is_decimal_text(s: &str) -> (b: bool)
    ensures
        b == is_decimal(s@),
{
    let n = s.unicode_len();
    let (start, dot) = scan_parts(s);
    let whole_ok = all_digits_range(s, start, dot);
    let frac_ok = if dot < n {
        all_digits_range(s, dot + 1, n)
    } else {
        proof {
            assert(all_digits(Seq::<char>::empty()));
        }
        true
    };
    let digit_count = (dot - start) + (if dot < n {
        n - dot - 1
    } else {
        0
    });
    whole_ok && frac_ok && digit_count >= 1
}

/// Whether decimal text `s` denotes a strictly positive magnitude.
pub fn magnitude_positive_text(s: &str) -> (b: bool)
    requires
        is_decimal(s@),
    ensures
        b == magnitude_positive(s@),
{
    let n = s.unicode_len();
    if n > 0 && s.get_char(0) == '-' {
        return false;
    }
    let (start, dot) = scan_parts(s);
    let whole_nonzero = any_nonzero_digit(s, start, dot);
    let frac_nonzero = if dot < n {
        any_nonzero_digit(s, dot + 1, n)
    } else {
        false
    };
    proof {
        let w = whole_digits(s@);
        let f = frac_digits(s@);
        lemma_digits_val_zero(w);
        lemma_digits_val_zero(f);
        if whole_nonzero {
            let j = choose|j: int| start <= j < dot && digit_val(s@[j]) != 0;
            assert(w[j - start] == s@[j]);
            assert(digits_val(w) != 0);
        }
        if frac_nonzero {
            let j = choose|j: int| dot + 1 <= j < n && digit_val(s@[j]) != 0;
            assert(f[j - (dot + 1)] == s@[j]);
            assert(digits_val(f) != 0);
        }
        if !whole_nonzero && !frac_nonzero {
            assert forall|k: int| 0 <= k < w.len() implies digit_val(w[k]) == 0 by {
                assert(w[k] == s@[start + k]);
            }
            assert forall|k: int| 0 <= k < f.len() implies digit_val(f[k]) == 0 by {
                assert(f[k] == s@[dot + 1 + k]);
            }
            assert(digits_val(w) == 0);
            assert(digits_val(f) == 0);
        }
    }
    whole_nonzero || frac_nonzero
}

/// Value of the digit run `s[from..to]`, read most-significant first;
/// saturates with an overflow flag past `u64::MAX`.
fn whole_value(s: &str, from: usize, to: usize) -> (r: (u64, bool))
    requires
        from <= to <= s@.len(),
        all_digits(s@.subrange(from as int, to as int)),
    ensures
        ({
            let (w, over) = r;
            &&& (!over ==> w == digits_val(s@.subrange(from as int, to as int)))
            &&& (over ==> digits_val(s@.subrange(from as int, to as int)) > u64::MAX)
        }),
{
    let mut w: u64 = 0;
    let mut over = false;
    let mut i = from;
    proof {
        assert(s@.subrange(from as int, from as int) =~= Seq::<char>::empty());
    }
    while i < to
        invariant
            from <= i <= to <= s@.len(),
            all_digits(s@.subrange(from as int, to as int)),
            !over ==> w == digits_val(s@.subrange(from as int, i as int)),
            over ==> digits_val(s@.subrange(from as int, i as int)) > u64::MAX,
        decreases to - i,
    {
        let c = s.get_char(i);
        proof {
            assert(s@.subrange(from as int, to as int)[i - from] == s@[i as int]);
            assert(is_digit(s@.subrange(from as int, to as int)[i - from]));
            assert(is_digit(c));
            assert(s@.subrange(from as int, i + 1).drop_last() =~= s@.subrange(
                from as int,
                i as int,
            ));
            assert(s@.subrange(from as int, i + 1).last() == s@[i as int]);
        }
        let d = (c as u32 - 48) as u64;
        if over {
            proof {
                let prev = digits_val(s@.subrange(from as int, i as int));
                assert(digits_val(s@.subrange(from as int, i + 1)) == prev * 10 + digit_val(
                    s@[i as int],
                ));
            }
        } else {
            let t: u128 = (w as u128) * 10 + (d as u128);
            if t > u64::MAX as u128 {
                over = true;
            } else {
                w = t as u64;
            }
        }
        i += 1;
    }
    (w, over)
}

/// `floor(m * v / 10^(to - from))` for the digit run `v = s[from..to]`:
/// the fraction digits' exact contribution to a byte count under
/// multiplier `m`.
fn frac_scaled(s: &str, from: usize, to: usize, m: u64) -> (acc: u64)
    requires
        from <= to <= s@.len(),
        all_digits(s@.subrange(from as int, to as int)),
        1 <= m <= 0x40000000,
    ensures
        acc == (m as nat * digits_val(s@.subrange(from as int, to as int))) / pow10(
            (to - from) as nat,
        ),
        acc < m,
{
    let mut acc: u64 = 0;
    let mut i = to;
    proof {
        assert(s@.subrange(to as int, to as int) =~= Seq::<char>::empty());
        assert(digits_val(Seq::<char>::empty()) == 0);
        assert(pow10(0) == 1);
    }
    while i > from
        invariant
            from <= i <= to <= s@.len(),
            all_digits(s@.subrange(from as int, to as int)),
            1 <= m <= 0x40000000,
            acc == (m as nat * digits_val(s@.subrange(i as int, to as int))) / pow10(
                (to - i) as nat,
            ),
            acc < m,
        decreases i - from,
    {
        let c = s.get_char(i - 1);
        proof {
            assert(s@.subrange(from as int, to as int)[i - 1 - from] == s@[i - 1]);
            assert(is_digit(s@.subrange(from as int, to as int)[i - 1 - from]));
            assert(is_digit(c));
        }
        let d = (c as u32 - 48) as u64;
        proof {
            let t = s@.subrange(i - 1, to as int);
            let rest = s@.subrange(i as int, to as int);
            let tv = digits_val(rest) as int;
            let p = pow10((to - i) as nat) as int;
            assert(t.len() > 0);
            assert(t[0] == s@[i - 1]);
            assert(t.drop_first() =~= rest);
            assert(all_digits(t)) by {
                assert(forall|k: int|
                    0 <= k < t.len() ==> t[k] == s@.subrange(from as int, to as int)[i - 1 - from
                        + k]);
            }
            assert(all_digits(rest)) by {
                assert(forall|k: int| 0 <= k < rest.len() ==> rest[k] == t[k + 1]);
            }
            lemma_digits_val_first(t);
            lemma_digits_val_bound(rest);
            lemma_pow10_pos((to - i) as nat);
            assert(pow10((to - i + 1) as nat) == 10 * p);
            assert(d <= 9);
            assert(digits_val(t) == d * p + tv);
            // acc == (m * tv) / p, and the new digit folds in as
            // (d*m + (m*tv)/p) / 10 == (m * (d*p + tv)) / (p*10).
            lemma_hoist_over_denominator(m as int * tv, (d * m) as int, p as nat);
            assert((m * tv) / p + d * m == (m * tv + (d * m) * p) / p);
            lemma_div_denominator(m as int * tv + (d * m) as int * p, p, 10);
            assert(((m * tv + (d * m) * p) / p) / 10 == (m * tv + (d * m) * p) / (p * 10));
            assert(m * (d * p + tv) == m * tv + (d * m) * p) by (nonlinear_arith);
            assert(m * digits_val(t) == m * (d * p + tv)) by (nonlinear_arith)
                requires
                    digits_val(t) == d * p + tv,
            ;
            // The new accumulator stays below m.
            assert(d * p + tv < 10 * p) by (nonlinear_arith)
                requires
                    d <= 9,
                    tv < p,
                    p >= 1,
            ;
            assert(m * (d * p + tv) < (p * 10) * m) by (nonlinear_arith)
                requires
                    d * p + tv < 10 * p,
                    m >= 1,
                    p >= 1,
            ;
            lemma_multiply_divide_lt(m as int * (d * p + tv), p * 10, m as int);
        }
        acc = (d * m + acc) / 10;
        i -= 1;
    }
    acc
}

/// Byte count denoted by decimal magnitude text `s` under unit tag `tag`:
/// `floor(magnitude * multiplier)`, clamped to the `u64` range.
pub open spec fn spec_size_to_bytes(s: Seq<char>, tag: Seq<char>) -> nat {
    sat_u64(scaled_bytes(s, spec_multiplier(spec_unit_of_tag(tag))))
}

/// Convert a decimal magnitude and a unit tag to a byte count:
/// exactly `floor(magnitude * multiplier)`, saturating at `u64::MAX`.
///
/// Callers validate first: the magnitude must be decimal text without a
/// minus sign (a negative size is rejected before conversion is reached).
pub fn size_to_bytes(size: &str, unit_tag: &str) -> (r: u64)
    requires
        is_decimal(size@),
        !is_negative(size@),
    ensures
        r == spec_size_to_bytes(size@, unit_tag@),
{
    bytes_for_unit(size, Unit::from_tag(unit_tag))
}

/// Convert a decimal magnitude and a resolved unit to a byte count:
/// exactly `floor(magnitude * multiplier)`, saturating at `u64::MAX`.
pub fn bytes_for_unit(size: &str, unit: Unit) -> (r: u64)
    requires
        is_decimal(size@),
        !is_negative(size@),
    ensures
        r == sat_u64(scaled_bytes(size@, spec_multiplier(unit))),
{
    let m = unit.multiplier();
    let n = size.unicode_len();
    let (start, dot) = scan_parts(size);
    let (w, over) = whole_value(size, start, dot);
    let fl = if dot < n {
        frac_scaled(size, dot + 1, n, m)
    } else {
        proof {
            assert(digits_val(Seq::<char>::empty()) == 0);
            assert(pow10(0) == 1);
        }
        0
    };
    proof {
        assert(fl == (m as nat * digits_val(frac_digits(size@))) / pow10(frac_digits(size@).len()));
    }
    let ghost wv = digits_val(whole_digits(size@));
    let ghost exact = scaled_bytes(size@, m as nat);
    if over {
        proof {
            assert(wv * m >= wv) by (nonlinear_arith)
                requires
                    m >= 1,
            ;
            assert(exact > u64::MAX);
        }
        u64::MAX
    } else {
        let total: u128 = (w as u128) * (m as u128) + (fl as u128);
        proof {
            assert(w as nat * m as nat <= u64::MAX as nat * 0x40000000) by (nonlinear_arith)
                requires
                    w <= u64::MAX,
                    m <= 0x40000000,
            ;
            assert(total == exact);
        }
        if total > u64::MAX as u128 {
            u64::MAX
        } else {
            total as u64
        }
    }
}

} // verus!
