use vstd::prelude::*;

use crate::text::{is_digit_char, digit_value, find_from, find_char, slice_of, lemma_find_from_bounds};

verus! {

/// Value of a run of decimal digits, most significant first.
pub open spec fn digits_value(s: Seq<char>) -> nat
    decreases s.len(),
{
    if s.len() == 0 {
        0
    } else {
        digits_value(s.drop_last()) * 10 + digit_value(s.last())
    }
}

pub open spec fn all_digits(s: Seq<char>) -> bool {
    forall|k: int| 0 <= k < s.len() ==> is_digit_char(#[trigger] s[k])
}

/// `s` without one leading `+`.
pub open spec fn unsigned_body(s: Seq<char>) -> Seq<char> {
    if s.len() > 0 && s[0] == '+' {
        s.drop_first()
    } else {
        s
    }
}

/// The value of an unsigned integer literal: an optional `+` and one or more digits.
pub open spec fn uint_text(s: Seq<char>) -> Option<nat> {
    let d = unsigned_body(s);
    if d.len() > 0 && all_digits(d) {
        Some(digits_value(d))
    } else {
        None
    }
}

pub proof fn lemma_digits_value_prefix(s: Seq<char>, i: int)
    requires
        0 <= i < s.len(),
    ensures
        digits_value(s.subrange(0, i + 1)) == digits_value(s.subrange(0, i)) * 10 + digit_value(
            s[i],
        ),
{
    assert(s.subrange(0, i + 1).drop_last() =~= s.subrange(0, i));
}

/// Parses an unsigned integer literal no larger than `max`.
pub fn parse_uint(v: &Vec<char>, max: u64) -> (r: Option<u64>)
    requires
        max >= 9,
    ensures
        r == (match uint_text(v@) {
            Some(n) => if n <= max {
                Some(n as u64)
            } else {
                None
            },
            None => None,
        }),
{
    let ghost d = unsigned_body(v@);
    let start: usize = if v.len() > 0 && v[0] == '+' {
        1
    } else {
        0
    };
    assert(d =~= v@.subrange(start as int, v@.len() as int));
    if start >= v.len() {
        return None;
    }
    let mut acc: u64 = 0;
    let mut i: usize = start;
    let mut too_big = false;
    while i < v.len()
        invariant
            start <= i <= v.len(),
            max >= 9,
            d == unsigned_body(v@),
            d == v@.subrange(start as int, v@.len() as int),
            forall|k: int| start <= k < i ==> is_digit_char(#[trigger] v@[k]),
            !too_big ==> acc as nat == digits_value(d.subrange(0, i - start)) && acc <= max,
            too_big ==> digits_value(d.subrange(0, i - start)) > max,
        decreases v.len() - i,
    {
        let c = v[i];
        if !('0' <= c && c <= '9') {
            assert(d[i - start] == v@[i as int]);
            assert(!is_digit_char(d[i - start]));
            assert(!all_digits(d));
            return None;
        }
        let dv: u64 = (c as u32 - '0' as u32) as u64;
        assert(dv <= 9);
        assert(d[i - start] == v@[i as int]);
        proof {
            lemma_digits_value_prefix(d, i - start);
            assert(d.subrange(0, i - start + 1) =~= d.subrange(0, (i + 1) - start));
        }
        if !too_big {
            if acc > (max - dv) / 10 {
                too_big = true;
                assert(acc * 10 + dv > max) by (nonlinear_arith)
                    requires
                        acc > (max - dv) / 10,
                        dv <= 9,
                        dv <= max,
                ;
            } else {
                assert(acc * 10 + dv <= max) by (nonlinear_arith)
                    requires
                        acc <= (max - dv) / 10,
                        dv <= max,
                ;
                acc = acc * 10 + dv;
            }
        } else {
            let ghost a = digits_value(d.subrange(0, i - start));
            assert(a * 10 >= a) by (nonlinear_arith);
        }
        i = i + 1;
    }
    assert(d.subrange(0, i - start) =~= d);
    assert(all_digits(d));
    if too_big {
        None
    } else {
        Some(acc)
    }
}

pub open spec fn pow10(n: nat) -> nat
    decreases n,
{
    if n == 0 {
        1
    } else {
        10 * pow10((n - 1) as nat)
    }
}

pub proof fn lemma_digits_value_bound(s: Seq<char>)
    requires
        all_digits(s),
    ensures
        digits_value(s) < pow10(s.len()),
    decreases s.len(),
{
    if s.len() > 0 {
        let p = s.drop_last();
        assert(all_digits(p)) by {
            assert forall|k: int| 0 <= k < p.len() implies is_digit_char(#[trigger] p[k]) by {
                assert(p[k] == s[k]);
            }
        }
        lemma_digits_value_bound(p);
        assert(is_digit_char(s[s.len() - 1]));
        assert(digits_value(s) == digits_value(p) * 10 + digit_value(s.last()));
        assert(digits_value(p) * 10 + digit_value(s.last()) < pow10(p.len()) * 10) by (nonlinear_arith)
            requires
                digits_value(p) < pow10(p.len()),
                digit_value(s.last()) <= 9,
        ;
    }
}

pub proof fn lemma_pow10_monotone(a: nat, b: nat)
    requires
        a <= b,
    ensures
        pow10(a) <= pow10(b),
    decreases b,
{
    if a < b {
        lemma_pow10_monotone(a, (b - 1) as nat);
    }
}

pub proof fn lemma_pow10_18()
    ensures
        pow10(18) == 1000000000000000000,
{
    reveal_with_fuel(pow10, 19);
}

/// Most significant digits a BPM literal may carry.
pub const BPM_MAX_DIGITS: usize = 18;

/// A beats-per-minute value held exactly: `mantissa / 10^scale`.
#[derive(Debug, Clone, Copy, PartialEq, Eq, Structural)]
pub struct Bpm {
    pub mantissa: u64,
    pub scale: u32,
}

impl Bpm {
    pub open spec fn wf(self) -> bool {
        0 < self.mantissa < pow10(BPM_MAX_DIGITS as nat) && self.scale <= BPM_MAX_DIGITS
    }
}

/// Index of the first character at or after `i` that is not `0`.
pub open spec fn skip_zeros_from(s: Seq<char>, i: int) -> int
    decreases s.len() - i,
{
    if 0 <= i < s.len() && s[i] == '0' {
        skip_zeros_from(s, i + 1)
    } else {
        i
    }
}

/// Index just past the last character at or before `j` that is not `0`.
pub open spec fn skip_zeros_back(s: Seq<char>, j: int) -> int
    decreases j,
{
    if 0 < j <= s.len() && s[j - 1] == '0' {
        skip_zeros_back(s, j - 1)
    } else {
        j
    }
}

/// The digits before the decimal point of a BPM literal (after an optional `+`).
pub open spec fn bpm_int_part(s: Seq<char>) -> Seq<char> {
    let b = unsigned_body(s);
    b.subrange(0, find_from(b, '.', 0))
}

/// The digits after the decimal point, empty when there is no point.
pub open spec fn bpm_frac_part(s: Seq<char>) -> Seq<char> {
    let b = unsigned_body(s);
    let dot = find_from(b, '.', 0);
    if dot < b.len() {
        b.subrange(dot + 1, b.len() as int)
    } else {
        Seq::empty()
    }
}

/// The significant digits: leading zeros of the integer part and trailing
/// zeros of the fraction dropped.
pub open spec fn bpm_significant(s: Seq<char>) -> (Seq<char>, Seq<char>) {
    let i = bpm_int_part(s);
    let f = bpm_frac_part(s);
    (i.subrange(skip_zeros_from(i, 0), i.len() as int), f.subrange(0, skip_zeros_back(f, f.len() as int)))
}

/// A positive decimal literal `[+]digits[.digits]`, at least one digit, with at
/// most `BPM_MAX_DIGITS` significant digits, as an exact value. This is the
/// accepted form of a tempo: exponent notation (`1.2e2`), `inf` and `nan` are
/// not accepted, nor is a literal with more significant digits.
pub open spec fn bpm_text(s: Seq<char>) -> Option<Bpm> {
    let i = bpm_int_part(s);
    let f = bpm_frac_part(s);
    let (si, sf) = bpm_significant(s);
    let digits = si + sf;
    if all_digits(i) && all_digits(f) && i.len() + f.len() > 0 && digits.len()
        <= BPM_MAX_DIGITS && digits_value(digits) > 0 {
        Some(Bpm { mantissa: digits_value(digits) as u64, scale: sf.len() as u32 })
    } else {
        None
    }
}

fn all_digits_exec(v: &Vec<char>) -> (r: bool)
    ensures
        r == all_digits(v@),
{
    let mut i: usize = 0;
    while i < v.len()
        invariant
            i <= v.len(),
            forall|k: int| 0 <= k < i ==> is_digit_char(#[trigger] v@[k]),
        decreases v.len() - i,
    {
        if !('0' <= v[i] && v[i] <= '9') {
            assert(!is_digit_char(v@[i as int]));
            return false;
        }
        i = i + 1;
    }
    true
}

fn concat_chars(a: &Vec<char>, b: &Vec<char>) -> (r: Vec<char>)
    ensures
        r@ == a@ + b@,
{
    let mut out = slice_of(a, 0, a.len());
    let mut i: usize = 0;
    assert(out@ =~= a@);
    while i < b.len()
        invariant
            i <= b.len(),
            out@ == a@ + b@.subrange(0, i as int),
        decreases b.len() - i,
    {
        out.push(b[i]);
        i = i + 1;
        assert(out@ =~= a@ + b@.subrange(0, i as int));
    }
    assert(b@.subrange(0, b.len() as int) =~= b@);
    out
}

/// Parses a BPM literal exactly; `None` when it is not a positive decimal
/// literal within the supported precision.
pub fn parse_bpm(v: &Vec<char>) -> (r: Option<Bpm>)
    ensures
        r == bpm_text(v@),
        r matches Some(b) ==> b.wf(),
{
    let start: usize = if v.len() > 0 && v[0] == '+' {
        1
    } else {
        0
    };
    let body = slice_of(v, start, v.len());
    assert(body@ =~= unsigned_body(v@));
    let dot = find_char(&body, '.');
    proof {
        lemma_find_from_bounds(body@, '.', 0);
    }
    let int_part = slice_of(&body, 0, dot);
    let frac_part = if dot < body.len() {
        slice_of(&body, dot + 1, body.len())
    } else {
        Vec::new()
    };
    assert(int_part@ == bpm_int_part(v@));
    assert(frac_part@ =~= bpm_frac_part(v@));
    if !all_digits_exec(&int_part) || !all_digits_exec(&frac_part) || int_part.len()
        + frac_part.len() == 0 {
        return None;
    }
    let mut a: usize = 0;
    while a < int_part.len() && int_part[a] == '0'
        invariant
            a <= int_part.len(),
            skip_zeros_from(int_part@, a as int) == skip_zeros_from(int_part@, 0),
        decreases int_part.len() - a,
    {
        a = a + 1;
    }
    let mut b: usize = frac_part.len();
    while b > 0 && frac_part[b - 1] == '0'
        invariant
            b <= frac_part.len(),
            skip_zeros_back(frac_part@, b as int) == skip_zeros_back(
                frac_part@,
                frac_part@.len() as int,
            ),
        decreases b,
    {
        b = b - 1;
    }
    let si = slice_of(&int_part, a, int_part.len());
    let sf = slice_of(&frac_part, 0, b);
    let digits = concat_chars(&si, &sf);
    assert(si@ == bpm_significant(v@).0);
    assert(sf@ == bpm_significant(v@).1);
    if digits.len() > BPM_MAX_DIGITS || digits.len() == 0 {
        return None;
    }
    assert(all_digits(digits@)) by {
        assert forall|k: int| 0 <= k < digits@.len() implies is_digit_char(#[trigger] digits@[k]) by {
            if k < si@.len() {
                assert(digits@[k] == int_part@[a + k]);
            } else {
                assert(digits@[k] == frac_part@[k - si@.len()]);
            }
        }
    }
    proof {
        lemma_digits_value_bound(digits@);
        lemma_pow10_monotone(digits@.len(), BPM_MAX_DIGITS as nat);
        lemma_pow10_18();
        assert(unsigned_body(digits@) == digits@);
    }
    match parse_uint(&digits, 0xFFFF_FFFF_FFFF_FFFF) {
        Some(m) => {
            if m == 0 {
                None
            } else {
                Some(Bpm { mantissa: m, scale: sf.len() as u32 })
            }
        },
        None => None,
    }
}

} // verus!
