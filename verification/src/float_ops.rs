//! IEEE-754 binary64 arithmetic on raw bit patterns.
//!
//! The machine's float values are carried as their 64-bit encodings, and the
//! arithmetic on them is delegated to `rustc_apfloat`, a software
//! implementation of IEEE-754. Each operation's result is a function of the
//! operand bits alone, so it is given a name here and every contract above
//! speaks of that name.

use vstd::prelude::*;
use rustc_apfloat::Float;
use rustc_apfloat::ieee::Double;

verus! {

/// The bits of the IEEE-754 binary64 sum of two doubles, given by bits.
pub uninterp spec fn f64_add_bits(l: u64, r: u64) -> u64;

/// The bits of the IEEE-754 binary64 difference of two doubles, given by bits.
pub uninterp spec fn f64_sub_bits(l: u64, r: u64) -> u64;

/// The bits of the IEEE-754 binary64 product of two doubles, given by bits.
pub uninterp spec fn f64_mul_bits(l: u64, r: u64) -> u64;

/// The bits of the IEEE-754 binary64 quotient of two doubles, given by bits.
pub uninterp spec fn f64_div_bits(l: u64, r: u64) -> u64;

/// Whether the encoding is one of the NaN patterns: an all-ones exponent
/// field with a non-zero significand field.
pub open spec fn f64_is_nan_bits(b: u64) -> bool {
    (b >> 52) & 0x7ff == 0x7ff && b & 0xf_ffff_ffff_ffff != 0
}

/// The position of the encoded double on the number line, as an integer key:
/// the magnitude bits, negated when the sign bit is set. Both zeros map to
/// zero; the infinities sit beyond every finite magnitude. Ordering these
/// keys is the IEEE comparison predicate for everything but NaN.
pub open spec fn f64_order_key(b: u64) -> int {
    if b >> 63 == 0 {
        (b & 0x7fff_ffff_ffff_ffff) as int
    } else {
        -((b & 0x7fff_ffff_ffff_ffff) as int)
    }
}

/// Whether the double encoded by `l` orders strictly below the one encoded by
/// `r`: the IEEE predicate, false when either is a NaN.
pub open spec fn f64_lt_bits(l: u64, r: u64) -> bool {
    !f64_is_nan_bits(l) && !f64_is_nan_bits(r) && f64_order_key(l) < f64_order_key(r)
}

/// Whether the double encoded by `l` orders strictly above the one encoded by
/// `r`: the IEEE predicate, false when either is a NaN.
pub open spec fn f64_gt_bits(l: u64, r: u64) -> bool {
    !f64_is_nan_bits(l) && !f64_is_nan_bits(r) && f64_order_key(l) > f64_order_key(r)
}

/// Whether the encoded double orders strictly above positive zero (negative
/// zero does not, nor does any NaN).
pub open spec fn f64_is_pos_bits(b: u64) -> bool {
    !f64_is_nan_bits(b) && f64_order_key(b) > 0
}

/// The bits of the double nearest to the given signed integer
/// (round to nearest, ties to even).
pub uninterp spec fn f64_of_i64_bits(i: i64) -> u64;

/// The decimal rendering of the encoded double.
pub uninterp spec fn f64_str_bits(b: u64) -> Seq<char>;

/// Relies on rustc_apfloat's `Double` addition (round to nearest, ties to
/// even): the result depends on the operand bits alone.
#[verifier::external_body]
pub(crate) fn f64_add(l: u64, r: u64) -> (s: u64)
    ensures
        s == f64_add_bits(l, r),
{
    let x = Double::from_bits(l as u128);
    let y = Double::from_bits(r as u128);
    (x + y).value.to_bits() as u64
}

/// Relies on rustc_apfloat's `Double` subtraction: the result depends on the
/// operand bits alone.
#[verifier::external_body]
pub(crate) fn f64_sub(l: u64, r: u64) -> (s: u64)
    ensures
        s == f64_sub_bits(l, r),
{
    let x = Double::from_bits(l as u128);
    let y = Double::from_bits(r as u128);
    (x - y).value.to_bits() as u64
}

/// Relies on rustc_apfloat's `Double` multiplication: the result depends on
/// the operand bits alone.
#[verifier::external_body]
pub(crate) fn f64_mul(l: u64, r: u64) -> (s: u64)
    ensures
        s == f64_mul_bits(l, r),
{
    let x = Double::from_bits(l as u128);
    let y = Double::from_bits(r as u128);
    (x * y).value.to_bits() as u64
}

/// Relies on rustc_apfloat's `Double` division (a zero divisor yields an
/// infinity, never a fault): the result depends on the operand bits alone.
#[verifier::external_body]
pub(crate) fn f64_div(l: u64, r: u64) -> (s: u64)
    ensures
        s == f64_div_bits(l, r),
{
    let x = Double::from_bits(l as u128);
    let y = Double::from_bits(r as u128);
    (x / y).value.to_bits() as u64
}

/// Relies on rustc_apfloat's `Double` ordering (`PartialOrd`), which follows
/// the IEEE comparison predicate: NaN compares below nothing.
#[verifier::external_body]
pub(crate) fn f64_lt(l: u64, r: u64) -> (c: bool)
    ensures
        c == f64_lt_bits(l, r),
{
    Double::from_bits(l as u128) < Double::from_bits(r as u128)
}

/// Relies on rustc_apfloat's `Double` ordering (`PartialOrd`), which follows
/// the IEEE comparison predicate: NaN compares above nothing.
#[verifier::external_body]
pub(crate) fn f64_gt(l: u64, r: u64) -> (c: bool)
    ensures
        c == f64_gt_bits(l, r),
{
    Double::from_bits(l as u128) > Double::from_bits(r as u128)
}

/// Relies on rustc_apfloat's `Double` ordering against its `ZERO` constant
/// (positive zero).
#[verifier::external_body]
pub(crate) fn f64_is_pos(b: u64) -> (c: bool)
    ensures
        c == f64_is_pos_bits(b),
{
    Double::from_bits(b as u128) > Double::ZERO
}

/// Relies on rustc_apfloat's `Double::from_i128` (round to nearest, ties to
/// even): the result depends on the integer alone.
#[verifier::external_body]
pub(crate) fn f64_of_i64(i: i64) -> (b: u64)
    ensures
        b == f64_of_i64_bits(i),
{
    Double::from_i128(i as i128).value.to_bits() as u64
}

/// A decimal digit.
pub open spec fn sci_digit(c: char) -> bool {
    '0' <= c && c <= '9'
}

/// Every character of the sequence is a decimal digit.
pub open spec fn sci_all_digits(s: Seq<char>) -> bool {
    forall|i: int| 0 <= i < s.len() ==> sci_digit(#[trigger] s[i])
}

/// The numeric value of a digit character.
pub open spec fn sci_digit_val(c: char) -> int {
    c as u32 - '0' as u32
}

/// The number a digit sequence denotes, most significant digit first.
pub open spec fn sci_digits_val(s: Seq<char>) -> int
    decreases s.len(),
{
    if s.len() == 0 {
        0
    } else {
        sci_digits_val(s.drop_last()) * 10 + sci_digit_val(s.last())
    }
}

/// The index of the first occurrence of `c`, or a negative value if absent.
pub open spec fn sci_find(s: Seq<char>, c: char) -> int
    decreases s.len(),
{
    if s.len() == 0 {
        -1
    } else if s[0] == c {
        0
    } else if sci_find(s.skip(1), c) < 0 {
        -1
    } else {
        sci_find(s.skip(1), c) + 1
    }
}

/// The sequence without its trailing zero digits.
pub open spec fn sci_trim_zeros(s: Seq<char>) -> Seq<char>
    decreases s.len(),
{
    if s.len() > 0 && s.last() == '0' {
        sci_trim_zeros(s.drop_last())
    } else {
        s
    }
}

/// `n` zero digits.
pub open spec fn sci_zeros(n: nat) -> Seq<char>
    decreases n,
{
    if n == 0 {
        Seq::empty()
    } else {
        sci_zeros((n - 1) as nat).push('0')
    }
}

/// A well-formed mantissa: one digit, optionally followed by a point and at
/// least one more digit.
pub open spec fn sci_mant_ok(m: Seq<char>) -> bool {
    m.len() >= 1 && sci_digit(m[0]) && (m.len() == 1 || (m.len() >= 3 && m[1] == '.'
        && sci_all_digits(m.skip(2))))
}

/// The mantissa's significant digits: the leading digit, then the fraction
/// without its trailing zeros.
pub open spec fn sci_mant_digits(m: Seq<char>) -> Seq<char> {
    if m.len() <= 1 {
        m
    } else {
        m.take(1) + sci_trim_zeros(m.skip(2))
    }
}

/// A well-formed non-negative exponent part: a plus sign and one to three
/// digits.
pub open spec fn sci_exp_ok(e: Seq<char>) -> bool {
    2 <= e.len() <= 4 && e[0] == '+' && sci_all_digits(e.skip(1))
}

/// Expands the scientific notation `D.FFFE+k` (optionally signed) of a value
/// with no fractional part left — the one shape the renderer still produces —
/// into plain decimal digits. Anything else passes through unchanged.
pub open spec fn sci_expand(s: Seq<char>) -> Seq<char> {
    let neg = s.len() > 0 && s[0] == '-';
    let t = if neg {
        s.skip(1)
    } else {
        s
    };
    let ei = sci_find(t, 'E');
    if ei < 0 {
        s
    } else {
        let mant = t.take(ei);
        let expo = t.skip(ei + 1);
        if sci_mant_ok(mant) && sci_exp_ok(expo) {
            let digits = sci_mant_digits(mant);
            let k = sci_digits_val(expo.skip(1));
            if k + 1 >= digits.len() {
                (if neg {
                    seq!['-']
                } else {
                    Seq::empty()
                }) + digits + sci_zeros((k + 1 - digits.len()) as nat)
            } else {
                s
            }
        } else {
            s
        }
    }
}

proof fn lemma_sci_find(s: Seq<char>, c: char)
    ensures
        sci_find(s, c) < 0 ==> forall|i: int| 0 <= i < s.len() ==> s[i] != c,
        sci_find(s, c) >= 0 ==> sci_find(s, c) < s.len() && s[sci_find(s, c)] == c && forall|
            i: int,
        | 0 <= i < sci_find(s, c) ==> s[i] != c,
    decreases s.len(),
{
    if s.len() > 0 && s[0] != c {
        lemma_sci_find(s.skip(1), c);
        assert forall|i: int| 1 <= i < s.len() implies s.skip(1)[i - 1] == s[i] by {}
    }
}

proof fn lemma_sci_digits_bound(s: Seq<char>)
    requires
        sci_all_digits(s),
        s.len() <= 3,
    ensures
        0 <= sci_digits_val(s),
        s.len() <= 1 ==> sci_digits_val(s) <= 9,
        s.len() <= 2 ==> sci_digits_val(s) <= 99,
        sci_digits_val(s) <= 999,
    decreases s.len(),
{
    if s.len() > 0 {
        assert forall|i: int| 0 <= i < s.drop_last().len() implies sci_digit(
            #[trigger] s.drop_last()[i],
        ) by {
            assert(s.drop_last()[i] == s[i]);
        }
        lemma_sci_digits_bound(s.drop_last());
        assert(sci_digit(s.last()));
    }
}

/// Expands one rendered double, as `sci_expand` prescribes.
#[verifier::rlimit(100)]
#[verifier::spinoff_prover]
pub(crate) fn sci_expand_str(s: &String) -> (r: String)
    ensures
        r@ == sci_expand(s@),
{
    let text = s.as_str();
    let n = text.unicode_len();
    let neg = n > 0 && text.get_char(0) == '-';
    let b: usize = if neg {
        1
    } else {
        0
    };
    let ghost t = s@.skip(b as int);
    proof {
        assert(s@.skip(0) =~= s@);
        assert(t == (if s@.len() > 0 && s@[0] == '-' {
            s@.skip(1)
        } else {
            s@
        }));
        assert forall|m: int| 0 <= m < t.len() implies t[m] == s@[m + b] by {}
        lemma_sci_find(t, 'E');
    }
    let mut j: usize = b;
    while j < n && text.get_char(j) != 'E'
        invariant
            b <= j <= n,
            n == s@.len(),
            text@ == s@,
            b <= 1,
            t == s@.skip(b as int),
            forall|m: int| b <= m < j ==> s@[m] != 'E',
        decreases n - j,
    {
        j = j + 1;
    }
    if j == n {
        proof {
            if sci_find(t, 'E') >= 0 {
                assert(t[sci_find(t, 'E')] == 'E');
                assert(s@[sci_find(t, 'E') + b] == 'E');
                assert(false);
            }
        }
        return s.clone();
    }
    proof {
        assert(t[j - b] == s@[j as int]);
        if sci_find(t, 'E') < 0 {
            assert(false);
        }
        if sci_find(t, 'E') < j - b {
            assert(s@[sci_find(t, 'E') + b] == 'E');
            assert(false);
        }
        if sci_find(t, 'E') > j - b {
            assert(t[j - b] != 'E');
            assert(false);
        }
        assert(sci_find(t, 'E') == j - b);
        assert(t.take(j - b) =~= s@.subrange(b as int, j as int));
        assert(t.skip(j - b + 1) =~= s@.subrange(j as int + 1, n as int));
    }
    let ghost mant = s@.subrange(b as int, j as int);
    let ghost expo = s@.subrange(j as int + 1, n as int);
    // Validate the mantissa: one digit, optionally a point and digits.
    if j == b {
        return s.clone();
    }
    let lead = text.get_char(b);
    if !(lead >= '0' && lead <= '9') {
        return s.clone();
    }
    if j - b >= 2 {
        if j - b == 2 || text.get_char(b + 1) != '.' {
            proof {
                assert(!sci_mant_ok(mant));
            }
            return s.clone();
        }
        let mut fi = b + 2;
        while fi < j && text.get_char(fi) >= '0' && text.get_char(fi) <= '9'
            invariant
                b + 2 <= fi <= j,
                j < n == s@.len(),
                text@ == s@,
                forall|m: int| b + 2 <= m < fi ==> sci_digit(#[trigger] s@[m]),
            decreases j - fi,
        {
            fi = fi + 1;
        }
        if fi < j {
            proof {
                assert(mant.skip(2)[fi - (b + 2)] == s@[fi as int]);
                assert(!sci_all_digits(mant.skip(2)));
            }
            return s.clone();
        }
        proof {
            assert forall|m: int| 0 <= m < mant.skip(2).len() implies sci_digit(
                #[trigger] mant.skip(2)[m],
            ) by {
                assert(mant.skip(2)[m] == s@[m + b + 2]);
            }
        }
    }
    proof {
        assert(sci_mant_ok(mant));
    }
    // Validate the exponent: a plus sign and one to three digits.
    let elen = n - (j + 1);
    if elen < 2 || elen > 4 {
        return s.clone();
    }
    if text.get_char(j + 1) != '+' {
        return s.clone();
    }
    let mut ei = j + 2;
    while ei < n && text.get_char(ei) >= '0' && text.get_char(ei) <= '9'
        invariant
            j + 2 <= ei <= n,
            n == s@.len(),
            text@ == s@,
            forall|m: int| j + 2 <= m < ei ==> sci_digit(#[trigger] s@[m]),
        decreases n - ei,
    {
        ei = ei + 1;
    }
    if ei < n {
        proof {
            assert(expo.skip(1)[ei - (j + 2)] == s@[ei as int]);
            assert(!sci_all_digits(expo.skip(1)));
        }
        return s.clone();
    }
    proof {
        assert forall|m: int| 0 <= m < expo.skip(1).len() implies sci_digit(
            #[trigger] expo.skip(1)[m],
        ) by {
            assert(expo.skip(1)[m] == s@[m + j + 1 + 1]);
        }
        assert(sci_exp_ok(expo));
    }
    // Parse the exponent's value.
    let mut k: u32 = 0;
    let mut pi = j + 2;
    proof {
        assert(s@.subrange(j as int + 2, pi as int) =~= Seq::<char>::empty());
    }
    while pi < n
        invariant
            j + 2 <= pi <= n,
            n == s@.len(),
            text@ == s@,
            n - (j + 2) <= 3,
            forall|m: int| j + 2 <= m < n ==> sci_digit(#[trigger] s@[m]),
            k == sci_digits_val(s@.subrange(j as int + 2, pi as int)),
            k <= 999,
        decreases n - pi,
    {
        let c = text.get_char(pi);
        proof {
            assert(s@.subrange(j as int + 2, pi as int + 1).drop_last() =~= s@.subrange(
                j as int + 2,
                pi as int,
            ));
            assert(s@.subrange(j as int + 2, pi as int + 1).last() == s@[pi as int]);
            assert forall|m: int| 0 <= m < s@.subrange(j as int + 2, pi as int).len() implies
                sci_digit(#[trigger] s@.subrange(j as int + 2, pi as int)[m]) by {
                assert(s@.subrange(j as int + 2, pi as int)[m] == s@[m + j + 2]);
            }
            lemma_sci_digits_bound(s@.subrange(j as int + 2, pi as int));
        }
        k = k * 10 + (c as u32 - '0' as u32);
        pi = pi + 1;
    }
    proof {
        assert(s@.subrange(j as int + 2, n as int) =~= expo.skip(1));
        assert(k == sci_digits_val(expo.skip(1)));
    }
    // The mantissa's significant digits: the lead, then the fraction with its
    // trailing zeros dropped.
    let ghost frac = mant.skip(2);
    let mut fe = j;
    proof {
        if j - b >= 2 {
            assert(frac.take(fe - (b + 2)) =~= frac);
        }
    }
    while fe > b + 2 && text.get_char(fe - 1) == '0'
        invariant
            b <= 1,
            b <= j,
            j < n == s@.len(),
            text@ == s@,
            fe <= j,
            j - b >= 2 ==> b + 2 <= fe && sci_trim_zeros(frac) == sci_trim_zeros(
                frac.take(fe - (b + 2)),
            ),
            frac == mant.skip(2),
            mant == s@.subrange(b as int, j as int),
        decreases fe,
    {
        proof {
            assert(frac.take(fe - (b + 2)).last() == s@[fe - 1]);
            assert(frac.take(fe - (b + 2)).drop_last() =~= frac.take(fe - 1 - (b + 2)));
        }
        fe = fe - 1;
    }
    let ghost digits = sci_mant_digits(mant);
    proof {
        if j - b >= 2 {
            if fe > b + 2 {
                assert(frac.take(fe - (b + 2)).last() == s@[fe - 1]);
            }
            assert(sci_trim_zeros(frac.take(fe - (b + 2))) =~= frac.take(fe - (b + 2)));
            assert(digits =~= mant.take(1) + frac.take(fe - (b + 2)));
        } else {
            assert(digits == mant);
        }
        assert(digits.len() == 1 + if j - b >= 2 {
            fe - (b + 2)
        } else {
            0
        });
    }
    let dlen: usize = 1 + if j - b >= 2 {
        fe - (b + 2)
    } else {
        0
    };
    if (k as usize) + 1 < dlen {
        return s.clone();
    }
    // Assemble: sign, significant digits, zeros out to the decimal point.
    let mut out = String::new();
    if neg {
        crate::text::push_char(&mut out, '-');
    }
    crate::text::push_char(&mut out, lead);
    proof {
        assert(mant.take(1) =~= seq![s@[b as int]]);
    }
    let mut ci = b + 2;
    while ci < fe && j - b >= 2
        invariant
            b <= 1,
            b <= j,
            n == s@.len(),
            text@ == s@,
            b + 2 <= ci,
            j - b >= 2 ==> ci <= fe,
            fe <= j < n,
            mant == s@.subrange(b as int, j as int),
            out@ == (if neg {
                seq!['-']
            } else {
                Seq::<char>::empty()
            }) + seq![s@[b as int]] + (if j - b >= 2 {
                mant.skip(2).take(ci - (b + 2))
            } else {
                Seq::<char>::empty()
            }),
        decreases fe - ci,
    {
        crate::text::push_char(&mut out, text.get_char(ci));
        proof {
            assert(mant.skip(2).take(ci + 1 - (b + 2)) =~= mant.skip(2).take(ci - (b + 2)).push(
                s@[ci as int],
            ));
            assert(out@ =~= (if neg {
                seq!['-']
            } else {
                Seq::<char>::empty()
            }) + seq![s@[b as int]] + mant.skip(2).take(ci + 1 - (b + 2)));
        }
        ci = ci + 1;
    }
    proof {
        assert(out@ =~= (if neg {
            seq!['-']
        } else {
            Seq::<char>::empty()
        }) + digits);
    }
    let zeros_needed = (k as usize) + 1 - dlen;
    let mut z: usize = 0;
    proof {
        assert(sci_zeros(0) =~= Seq::<char>::empty());
        assert(out@ + sci_zeros(0) =~= out@);
    }
    let ghost head = out@;
    while z < zeros_needed
        invariant
            z <= zeros_needed,
            out@ == head + sci_zeros(z as nat),
        decreases zeros_needed - z,
    {
        crate::text::push_char(&mut out, '0');
        proof {
            assert(head + sci_zeros((z + 1) as nat) =~= (head + sci_zeros(z as nat)).push('0'));
        }
        z = z + 1;
    }
    proof {
        assert(zeros_needed == k + 1 - digits.len());
        assert(out@ =~= (if neg {
            seq!['-']
        } else {
            Seq::<char>::empty()
        }) + digits + sci_zeros((k + 1 - digits.len()) as nat));
        assert(out@ == sci_expand(s@));
    }
    out
}

/// Relies on rustc_apfloat's decimal `Display` for `Double`: the rendering
/// depends on the bits alone. The width parameter is `Display`'s tolerance
/// for zero-padding before it falls back to scientific notation; 324 covers
/// the doubles' whole subnormal range, so every magnitude within the
/// seventeen-digit round-trip precision prints as a plain decimal.
#[verifier::external_body]
pub(crate) fn f64_fmt(b: u64) -> (s: String)
    ensures
        s@ == f64_str_bits(b),
{
    format!("{:324}", Double::from_bits(b as u128))
}

} // verus!
