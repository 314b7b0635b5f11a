//! Byte-level decoding of fixed-width fields.
//!
//! Lines of the legacy format are byte strings.  A field is a `[start, end)`
//! byte range of a line; its text is trimmed of surrounding ASCII whitespace
//! and then read as a decimal numeral (optionally signed, with an optional
//! fraction and exponent), a small integer, or a 0/1 flag.  Decoding is
//! best effort: anything malformed, out of range, or cut off by a short
//! line yields `None`, and the caller keeps its previous value.

use vstd::prelude::*;
use crate::rat::{Rat, RatV, RAT_BOUND};

verus! {

/// ASCII whitespace: space, tab, line feed, form feed, carriage return.
pub open spec fn is_space(b: u8) -> bool {
    b == 32 || b == 9 || b == 10 || b == 12 || b == 13
}

/// ASCII decimal digit.
pub open spec fn is_digit(b: u8) -> bool {
    48 <= b && b <= 57
}

/// Numeric value of a digit byte.
pub open spec fn digit_of(b: u8) -> int {
    b - 48
}

/// Exponent marker: `e` or `E`.
pub open spec fn is_exp_mark(b: u8) -> bool {
    b == 101 || b == 69
}

/// A line is blank when every byte is whitespace.
pub open spec fn is_blank(s: Seq<u8>) -> bool {
    forall|i: int| 0 <= i < s.len() ==> is_space(s[i])
}

/// Index of the first exponent marker, or `s.len()` if there is none.
pub open spec fn find_exp(s: Seq<u8>) -> int
    decreases s.len(),
{
    if s.len() == 0 {
        0
    } else if is_exp_mark(s[0]) {
        0
    } else {
        1 + find_exp(s.subrange(1, s.len() as int))
    }
}

/// Index of the first `.`, or `s.len()` if there is none.
pub open spec fn find_dot(s: Seq<u8>) -> int
    decreases s.len(),
{
    if s.len() == 0 {
        0
    } else if s[0] == 46 {
        0
    } else {
        1 + find_dot(s.subrange(1, s.len() as int))
    }
}

/// Index of the first whitespace byte, or `s.len()` if there is none.
pub open spec fn find_space(s: Seq<u8>) -> int
    decreases s.len(),
{
    if s.len() == 0 {
        0
    } else if is_space(s[0]) {
        0
    } else {
        1 + find_space(s.subrange(1, s.len() as int))
    }
}

pub proof fn lemma_find_exp_is(s: Seq<u8>, i: int)
    requires
        0 <= i <= s.len(),
        forall|j: int| 0 <= j < i ==> !is_exp_mark(s[j]),
        i < s.len() ==> is_exp_mark(s[i]),
    ensures
        find_exp(s) == i,
    decreases s.len(),
{
    if s.len() != 0 && i != 0 {
        lemma_find_exp_is(s.subrange(1, s.len() as int), i - 1);
    }
}

pub proof fn lemma_find_dot_is(s: Seq<u8>, i: int)
    requires
        0 <= i <= s.len(),
        forall|j: int| 0 <= j < i ==> s[j] != 46,
        i < s.len() ==> s[i] == 46,
    ensures
        find_dot(s) == i,
    decreases s.len(),
{
    if s.len() != 0 && i != 0 {
        lemma_find_dot_is(s.subrange(1, s.len() as int), i - 1);
    }
}

pub proof fn lemma_find_space_is(s: Seq<u8>, i: int)
    requires
        0 <= i <= s.len(),
        forall|j: int| 0 <= j < i ==> !is_space(s[j]),
        i < s.len() ==> is_space(s[i]),
    ensures
        find_space(s) == i,
    decreases s.len(),
{
    if s.len() != 0 && i != 0 {
        lemma_find_space_is(s.subrange(1, s.len() as int), i - 1);
    }
}

/// `s` without its leading whitespace.
pub open spec fn trim_start(s: Seq<u8>) -> Seq<u8>
    decreases s.len(),
{
    if s.len() > 0 && is_space(s[0]) {
        trim_start(s.subrange(1, s.len() as int))
    } else {
        s
    }
}

/// `s` without its trailing whitespace.
pub open spec fn trim_end(s: Seq<u8>) -> Seq<u8>
    decreases s.len(),
{
    if s.len() > 0 && is_space(s.last()) {
        trim_end(s.drop_last())
    } else {
        s
    }
}

/// `s` without surrounding whitespace.
pub open spec fn spec_trim(s: Seq<u8>) -> Seq<u8> {
    trim_end(trim_start(s))
}

pub proof fn lemma_trim_start_skip(s: Seq<u8>, i: int)
    requires
        0 <= i <= s.len(),
        forall|j: int| 0 <= j < i ==> is_space(s[j]),
        i < s.len() ==> !is_space(s[i]),
    ensures
        trim_start(s) == s.subrange(i, s.len() as int),
    decreases i,
{
    if i == 0 {
        assert(s.subrange(0, s.len() as int) =~= s);
    } else {
        let s1 = s.subrange(1, s.len() as int);
        lemma_trim_start_skip(s1, i - 1);
        assert(s1.subrange(i - 1, s1.len() as int) =~= s.subrange(i, s.len() as int));
    }
}

pub proof fn lemma_trim_end_take(s: Seq<u8>, j: int)
    requires
        0 <= j <= s.len(),
        forall|k: int| j <= k < s.len() ==> is_space(s[k]),
        j > 0 ==> !is_space(s[j - 1]),
    ensures
        trim_end(s) == s.subrange(0, j),
    decreases s.len() - j,
{
    if j == s.len() {
        assert(s.subrange(0, s.len() as int) =~= s);
    } else {
        lemma_trim_end_take(s.drop_last(), j);
        assert(s.drop_last().subrange(0, j) =~= s.subrange(0, j));
    }
}

/// Value of a digit string read in base 10.
pub open spec fn digits_val(s: Seq<u8>) -> int
    decreases s.len(),
{
    if s.len() == 0 {
        0
    } else {
        10 * digits_val(s.drop_last()) + digit_of(s.last())
    }
}

/// Every byte of `s` is a digit.
pub open spec fn all_digits(s: Seq<u8>) -> bool {
    forall|i: int| 0 <= i < s.len() ==> is_digit(s[i])
}

/// `10^n`.
pub open spec fn pow10(n: nat) -> int
    decreases n,
{
    if n == 0 {
        1
    } else {
        10 * pow10((n - 1) as nat)
    }
}

pub proof fn lemma_pow10_pos(n: nat)
    ensures
        pow10(n) >= 1,
    decreases n,
{
    if n > 0 {
        lemma_pow10_pos((n - 1) as nat);
    }
}

pub proof fn lemma_pow10_mono(a: nat, b: nat)
    requires
        a <= b,
    ensures
        0 < pow10(a) <= pow10(b),
    decreases b,
{
    lemma_pow10_pos(a);
    if a < b {
        lemma_pow10_mono(a, (b - 1) as nat);
    }
}

pub proof fn lemma_pow10_add(a: nat, b: nat)
    ensures
        pow10(a + b) == pow10(a) * pow10(b),
    decreases b,
{
    if b == 0 {
        assert(pow10(a + 0) == pow10(a) * 1);
    } else {
        lemma_pow10_add(a, (b - 1) as nat);
        assert(10 * (pow10(a) * pow10((b - 1) as nat)) == pow10(a) * (10 * pow10(
            (b - 1) as nat,
        ))) by (nonlinear_arith);
        assert(a + b == (a + (b - 1) as nat) + 1);
    }
}

pub proof fn lemma_digits_val_bounds(s: Seq<u8>)
    requires
        all_digits(s),
    ensures
        0 <= digits_val(s) < pow10(s.len()),
    decreases s.len(),
{
    if s.len() == 0 {
    } else {
        lemma_digits_val_bounds(s.drop_last());
    }
}

pub proof fn lemma_digits_val_concat(a: Seq<u8>, b: Seq<u8>)
    ensures
        digits_val(a + b) == digits_val(a) * pow10(b.len()) + digits_val(b),
    decreases b.len(),
{
    if b.len() == 0 {
        assert(a + b =~= a);
    } else {
        lemma_digits_val_concat(a, b.drop_last());
        assert((a + b).drop_last() =~= a + b.drop_last());
        assert(10 * (digits_val(a) * pow10((b.len() - 1) as nat)) == digits_val(a) * (10 * pow10(
            (b.len() - 1) as nat,
        ))) by (nonlinear_arith);
    }
}

pub proof fn lemma_digits_val_prefix(s: Seq<u8>, i: int)
    requires
        all_digits(s),
        0 <= i <= s.len(),
    ensures
        digits_val(s.subrange(0, i)) <= digits_val(s),
    decreases s.len() - i,
{
    if i == s.len() {
        assert(s.subrange(0, s.len() as int) =~= s);
    } else {
        lemma_digits_val_prefix(s, i + 1);
        let t = s.subrange(0, i + 1);
        assert(t.drop_last() =~= s.subrange(0, i));
        lemma_digits_val_bounds(s.subrange(0, i));
    }
}

/// Whitespace test on a byte.
pub fn space_byte(b: u8) -> (r: bool)
    ensures
        r == is_space(b),
{
    b == 32 || b == 9 || b == 10 || b == 12 || b == 13
}

/// Digit test on a byte.
pub fn digit_byte(b: u8) -> (r: bool)
    ensures
        r == is_digit(b),
{
    48 <= b && b <= 57
}

/// Whether a whole line is blank (empty or all whitespace).
pub fn blank_line(line: &Vec<u8>) -> (r: bool)
    ensures
        r == is_blank(line@),
{
    let mut i: usize = 0;
    while i < line.len()
        invariant
            0 <= i <= line.len(),
            forall|j: int| 0 <= j < i ==> is_space(line@[j]),
        decreases line.len() - i,
    {
        if !space_byte(line[i]) {
            return false;
        }
        i = i + 1;
    }
    true
}

/// `10^e` as an `i128`, for `e <= 18`.
pub fn pow10_i128(e: usize) -> (r: i128)
    requires
        e <= 18,
    ensures
        r == pow10(e as nat),
        1 <= r <= RAT_BOUND,
{
    proof {
        reveal_with_fuel(pow10, 20);
    }
    let mut acc: i128 = 1;
    let mut i: usize = 0;
    while i < e
        invariant
            0 <= i <= e <= 18,
            acc == pow10(i as nat),
            1 <= acc <= RAT_BOUND,
        decreases e - i,
    {
        proof {
            lemma_pow10_mono((i + 1) as nat, 18);
            assert(pow10(18) == RAT_BOUND) by {
                reveal_with_fuel(pow10, 20);
            }
        }
        acc = acc * 10;
        i = i + 1;
    }
    acc
}

/// The trimmed text of the byte range `[start, end)` of `line`, or `None`
/// when the line is too short to hold the whole range.
pub open spec fn spec_field(line: Seq<u8>, start: int, end: int) -> Option<Seq<u8>> {
    if end <= line.len() {
        Some(spec_trim(line.subrange(start, end)))
    } else {
        None
    }
}

/// Extracts and trims the byte range `[start, end)` of `line`.
pub fn extract_field(line: &Vec<u8>, start: usize, end: usize) -> (r: Option<Vec<u8>>)
    requires
        start <= end,
    ensures
        match r {
            Some(f) => spec_field(line@, start as int, end as int) == Some(f@),
            None => spec_field(line@, start as int, end as int) is None,
        },
{
    if end > line.len() {
        return None;
    }
    let ghost sub = line@.subrange(start as int, end as int);
    let mut lo: usize = start;
    while lo < end && space_byte(line[lo])
        invariant
            start <= lo <= end <= line.len(),
            forall|j: int| start <= j < lo ==> is_space(line@[j]),
        decreases end - lo,
    {
        lo = lo + 1;
    }
    let mut hi: usize = end;
    while hi > lo && space_byte(line[hi - 1])
        invariant
            lo <= hi <= end <= line.len(),
            forall|j: int| hi <= j < end ==> is_space(line@[j]),
        decreases hi,
    {
        hi = hi - 1;
    }
    let mut out: Vec<u8> = Vec::new();
    let mut i: usize = lo;
    while i < hi
        invariant
            lo <= i <= hi <= line.len(),
            out@ =~= line@.subrange(lo as int, i as int),
        decreases hi - i,
    {
        out.push(line[i]);
        i = i + 1;
    }
    proof {
        lemma_trim_start_skip(sub, lo - start);
        let ts = sub.subrange(lo - start, sub.len() as int);
        lemma_trim_end_take(ts, hi - lo);
        assert(ts.subrange(0, hi - lo) =~= line@.subrange(lo as int, hi as int));
        assert(out@ =~= line@.subrange(lo as int, hi as int));
    }
    Some(out)
}

/// Exponent-marker test on a byte.
pub fn exp_mark_byte(b: u8) -> (r: bool)
    ensures
        r == is_exp_mark(b),
{
    b == 101 || b == 69
}

/// The value of a digit range `[lo, hi)` of `v`, read in base 10.
pub fn digits_value(v: &Vec<u8>, lo: usize, hi: usize) -> (m: i128)
    requires
        lo <= hi <= v.len(),
        hi - lo <= 18,
        all_digits(v@.subrange(lo as int, hi as int)),
    ensures
        m == digits_val(v@.subrange(lo as int, hi as int)),
        0 <= m < pow10((hi - lo) as nat),
{
    let ghost d = v@.subrange(lo as int, hi as int);
    let mut acc: i128 = 0;
    let mut i: usize = lo;
    while i < hi
        invariant
            lo <= i <= hi <= v.len(),
            hi - lo <= 18,
            d == v@.subrange(lo as int, hi as int),
            all_digits(d),
            acc == digits_val(d.subrange(0, i - lo)),
            0 <= acc < pow10((i - lo) as nat),
        decreases hi - i,
    {
        proof {
            let t = d.subrange(0, i - lo + 1);
            assert(t.drop_last() =~= d.subrange(0, i - lo));
            assert(d[i - lo] == v@[i as int]);
            lemma_pow10_mono((i - lo + 1) as nat, 18);
            assert(pow10(18) == RAT_BOUND) by {
                reveal_with_fuel(pow10, 20);
            }
        }
        acc = acc * 10 + ((v[i] - 48) as i128);
        i = i + 1;
    }
    proof {
        assert(d.subrange(0, (hi - lo) as int) =~= d);
    }
    acc
}

/// Splits a leading `+` or `-` off `s`: (is negative, rest).
pub open spec fn sign_split(s: Seq<u8>) -> (bool, Seq<u8>) {
    if s.len() > 0 && s[0] == 43 {
        (false, s.subrange(1, s.len() as int))
    } else if s.len() > 0 && s[0] == 45 {
        (true, s.subrange(1, s.len() as int))
    } else {
        (false, s)
    }
}

/// The exponent written after the `e`/`E` mark: an optional sign and one to
/// three digits.
pub open spec fn spec_parse_exp(s: Seq<u8>) -> Option<int> {
    let (neg, d) = sign_split(s);
    if 1 <= d.len() <= 3 && all_digits(d) {
        Some(
            if neg {
                -digits_val(d)
            } else {
                digits_val(d)
            },
        )
    } else {
        None
    }
}

/// Value of a signed small integer: an optional sign and digits, within
/// `i8` range.  Anything else fails to decode.
pub open spec fn spec_parse_i8(s: Seq<u8>) -> Option<i8> {
    let (neg, d) = sign_split(s);
    if d.len() >= 1 && all_digits(d) && (if neg {
        digits_val(d) <= 128
    } else {
        digits_val(d) <= 127
    }) {
        Some(
            (if neg {
                -digits_val(d)
            } else {
                digits_val(d)
            }) as i8,
        )
    } else {
        None
    }
}

/// A 0/1 numeric flag.
pub open spec fn spec_parse_bool01(s: Seq<u8>) -> Option<bool> {
    match spec_parse_i8(s) {
        Some(x) => if x == 0 {
            Some(false)
        } else if x == 1 {
            Some(true)
        } else {
            None
        },
        None => None,
    }
}

/// The exact rational value of a decimal numeral: an optional sign, at most
/// 18 mantissa digits with an optional decimal point, and an optional
/// exponent of at most three digits.  Values whose numerator or denominator
/// would reach `RAT_BOUND` fail to decode, as does anything malformed.
pub open spec fn spec_parse_rat(s: Seq<u8>) -> Option<RatV> {
    let (neg, t) = sign_split(s);
    let ei = find_exp(t);
    let mant = t.subrange(0, ei);
    let di = find_dot(mant);
    let ip = mant.subrange(0, di);
    let fp = if di == mant.len() {
        Seq::<u8>::empty()
    } else {
        mant.subrange(di + 1, mant.len() as int)
    };
    let expo = if ei == t.len() {
        Some(0int)
    } else {
        spec_parse_exp(t.subrange(ei + 1, t.len() as int))
    };
    if all_digits(ip) && all_digits(fp) && 1 <= ip.len() + fp.len() <= 18 && expo is Some {
        let m = digits_val(ip) * pow10(fp.len()) + digits_val(fp);
        let e10 = expo->Some_0 - fp.len();
        rat_from_parts(neg, m, e10)
    } else {
        None
    }
}

/// Assembles `(+/-) m * 10^e10` as a rational, when it fits below
/// `RAT_BOUND`.
pub open spec fn rat_from_parts(neg: bool, m: int, e10: int) -> Option<RatV> {
    if m == 0 {
        Some(RatV { n: 0, d: 1 })
    } else if e10 >= 0 {
        if m * pow10(e10 as nat) < RAT_BOUND {
            Some(
                RatV {
                    n: if neg {
                        -(m * pow10(e10 as nat))
                    } else {
                        m * pow10(e10 as nat)
                    },
                    d: 1,
                },
            )
        } else {
            None
        }
    } else {
        if -e10 <= 18 {
            Some(
                RatV {
                    n: if neg {
                        -m
                    } else {
                        m
                    },
                    d: pow10((-e10) as nat),
                },
            )
        } else {
            None
        }
    }
}

/// Decodes the exponent range `[lo, hi)` of `v`.
#[verifier::loop_isolation(false)]
fn parse_exp_range(v: &Vec<u8>, lo: usize, hi: usize) -> (r: Option<i32>)
    requires
        lo <= hi <= v.len(),
    ensures
        match r {
            Some(e) => spec_parse_exp(v@.subrange(lo as int, hi as int)) == Some(e as int)
                && -999 <= e <= 999,
            None => spec_parse_exp(v@.subrange(lo as int, hi as int)) is None,
        },
{
    let ghost es = v@.subrange(lo as int, hi as int);
    let mut off: usize = lo;
    let mut neg: bool = false;
    if lo < hi && (v[lo] == 43 || v[lo] == 45) {
        neg = v[lo] == 45;
        off = lo + 1;
    }
    let ghost d = sign_split(es).1;
    proof {
        assert(d =~= v@.subrange(off as int, hi as int));
        assert(sign_split(es).0 == neg);
    }
    if hi - off < 1 || hi - off > 3 {
        return None;
    }
    let mut i: usize = off;
    while i < hi
        invariant
            off <= i <= hi <= v.len(),
            forall|j: int| off <= j < i ==> is_digit(v@[j]),
        decreases hi - i,
    {
        if !digit_byte(v[i]) {
            assert(!is_digit(d[i - off]));
            return None;
        }
        i = i + 1;
    }
    assert(all_digits(d));
    let m = digits_value(v, off, hi);
    proof {
        assert(pow10(3) == 1000) by {
            reveal_with_fuel(pow10, 4);
        }
        lemma_pow10_mono((hi - off) as nat, 3);
    }
    let e = m as i32;
    if neg {
        Some(-e)
    } else {
        Some(e)
    }
}

/// Whether every byte in `[lo, hi)` of `v` is a digit.
#[verifier::loop_isolation(false)]
fn digit_run(v: &Vec<u8>, lo: usize, hi: usize) -> (r: bool)
    requires
        lo <= hi <= v.len(),
    ensures
        r == all_digits(v@.subrange(lo as int, hi as int)),
{
    let ghost d = v@.subrange(lo as int, hi as int);
    let mut i: usize = lo;
    while i < hi
        invariant
            lo <= i <= hi,
            forall|j: int| lo <= j < i ==> is_digit(v@[j]),
        decreases hi - i,
    {
        if !digit_byte(v[i]) {
            assert(!is_digit(d[i - lo]));
            return false;
        }
        i = i + 1;
    }
    assert forall|j: int| 0 <= j < d.len() implies is_digit(d[j]) by {
        assert(d[j] == v@[lo + j]);
    }
    true
}

/// Index of the first exponent marker at or after `off`, or `v.len()`.
#[verifier::loop_isolation(false)]
fn scan_exp(v: &Vec<u8>, off: usize) -> (r: usize)
    requires
        off <= v.len(),
    ensures
        off <= r <= v.len(),
        r - off == find_exp(v@.subrange(off as int, v.len() as int)),
        r < v.len() ==> is_exp_mark(v@[r as int]),
        forall|j: int| off <= j < r ==> !is_exp_mark(v@[j]),
{
    let n = v.len();
    let mut i: usize = off;
    while i < n && !exp_mark_byte(v[i])
        invariant
            off <= i <= n,
            forall|j: int| off <= j < i ==> !is_exp_mark(v@[j]),
        decreases n - i,
    {
        i = i + 1;
    }
    proof {
        lemma_find_exp_is(v@.subrange(off as int, n as int), i - off);
    }
    i
}

/// Index of the first `.` in `[off, hi)` of `v`, or `hi`.
#[verifier::loop_isolation(false)]
fn scan_dot(v: &Vec<u8>, off: usize, hi: usize) -> (r: usize)
    requires
        off <= hi <= v.len(),
    ensures
        off <= r <= hi,
        r - off == find_dot(v@.subrange(off as int, hi as int)),
        r < hi ==> v@[r as int] == 46,
        forall|j: int| off <= j < r ==> v@[j] != 46,
{
    let mut i: usize = off;
    while i < hi && v[i] != 46
        invariant
            off <= i <= hi,
            forall|j: int| off <= j < i ==> v@[j] != 46,
        decreases hi - i,
    {
        i = i + 1;
    }
    proof {
        lemma_find_dot_is(v@.subrange(off as int, hi as int), i - off);
    }
    i
}

/// Builds `(+/-) m * 10^e10` as a bounded rational, or fails when it would
/// reach `RAT_BOUND`.
fn assemble_rat(neg: bool, m: i128, e10: i64) -> (r: Option<Rat>)
    requires
        0 <= m < RAT_BOUND,
        -1100 <= e10 <= 1100,
    ensures
        match r {
            Some(q) => rat_from_parts(neg, m as int, e10 as int) == Some(q@) && q.bounded(),
            None => rat_from_parts(neg, m as int, e10 as int) is None,
        },
{
    if m == 0 {
        return Some(Rat { num: 0, den: 1 });
    }
    if e10 >= 0 {
        if e10 >= 18 {
            proof {
                lemma_pow10_mono(18, e10 as nat);
                assert(pow10(18) == RAT_BOUND) by {
                    reveal_with_fuel(pow10, 20);
                }
                assert(m * pow10(e10 as nat) >= pow10(e10 as nat)) by (nonlinear_arith)
                    requires
                        m >= 1,
                        pow10(e10 as nat) >= 1,
                ;
            }
            return None;
        }
        let p = pow10_i128(e10 as usize);
        proof {
            assert(m * p < RAT_BOUND * RAT_BOUND) by (nonlinear_arith)
                requires
                    0 <= m < RAT_BOUND,
                    1 <= p <= RAT_BOUND,
            ;
            assert(m * p >= 0) by (nonlinear_arith)
                requires
                    m >= 0,
                    p >= 1,
            ;
        }
        let prod = m * p;
        if prod >= RAT_BOUND {
            return None;
        }
        if neg {
            Some(Rat { num: -prod, den: 1 })
        } else {
            Some(Rat { num: prod, den: 1 })
        }
    } else {
        if e10 < -18 {
            return None;
        }
        let den = pow10_i128((-e10) as usize);
        if neg {
            Some(Rat { num: -m, den })
        } else {
            Some(Rat { num: m, den })
        }
    }
}

/// Decodes a trimmed field as a decimal numeral.
#[verifier::rlimit(100)]
pub fn parse_rat(v: &Vec<u8>) -> (r: Option<Rat>)
    ensures
        match r {
            Some(q) => spec_parse_rat(v@) == Some(q@) && q.bounded(),
            None => spec_parse_rat(v@) is None,
        },
{
    let ghost s = v@;
    let n = v.len();
    let mut off: usize = 0;
    let mut neg: bool = false;
    if n > 0 && (v[0] == 43 || v[0] == 45) {
        neg = v[0] == 45;
        off = 1;
    }
    let ghost t = sign_split(s).1;
    proof {
        assert(t =~= s.subrange(off as int, n as int));
        assert(sign_split(s).0 == neg);
    }
    let ei_abs = scan_exp(v, off);
    let ghost ei = ei_abs - off;
    let ghost mant = t.subrange(0, ei);
    let di_abs = scan_dot(v, off, ei_abs);
    let ghost di = di_abs - off;
    proof {
        assert(mant =~= s.subrange(off as int, ei_abs as int));
        assert(find_dot(mant) == di) by {
            assert(mant =~= v@.subrange(off as int, ei_abs as int));
        }
    }
    let ghost ip = mant.subrange(0, di);
    let ghost fp = if di == mant.len() {
        Seq::<u8>::empty()
    } else {
        mant.subrange(di + 1, mant.len() as int)
    };
    let fp_lo: usize = if di_abs < ei_abs {
        di_abs + 1
    } else {
        di_abs
    };
    let fp_hi: usize = ei_abs;
    proof {
        assert(ip =~= s.subrange(off as int, di_abs as int));
        assert(fp =~= s.subrange(fp_lo as int, fp_hi as int));
    }
    let il: usize = di_abs - off;
    let fl: usize = fp_hi - fp_lo;
    if il + fl < 1 || il + fl > 18 {
        return None;
    }
    if !digit_run(v, off, di_abs) {
        return None;
    }
    if !digit_run(v, fp_lo, fp_hi) {
        return None;
    }
    let expv: i32;
    if ei_abs == n {
        expv = 0;
    } else {
        proof {
            assert(t.subrange(ei + 1, t.len() as int) =~= s.subrange(ei_abs + 1, n as int));
        }
        match parse_exp_range(v, ei_abs + 1, n) {
            Some(e) => {
                expv = e;
            },
            None => {
                return None;
            },
        }
    }
    let mi = digits_value(v, off, di_abs);
    let mf = digits_value(v, fp_lo, fp_hi);
    proof {
        lemma_digits_val_concat(ip, fp);
        lemma_pow10_add(il as nat, fl as nat);
        lemma_pow10_mono((il + fl) as nat, 18);
        assert(pow10(18) == RAT_BOUND) by {
            reveal_with_fuel(pow10, 20);
        }
        assert(mi * pow10(fl as nat) + mf < pow10(il as nat) * pow10(fl as nat))
            by (nonlinear_arith)
            requires
                mi < pow10(il as nat),
                0 <= mf < pow10(fl as nat),
                0 <= mi,
        ;
    }
    let pf = pow10_i128(fl);
    let m = mi * pf + mf;
    assert(m == digits_val(ip) * pow10(fp.len()) + digits_val(fp));
    let e10: i64 = (expv as i64) - (fl as i64);
    let ghost expo: Option<int> = if ei == t.len() {
        Some(0int)
    } else {
        spec_parse_exp(t.subrange(ei + 1, t.len() as int))
    };
    proof {
        assert(expo == Some(expv as int));
        assert(e10 == expo->Some_0 - fp.len());
    }
    assemble_rat(neg, m, e10)
}

/// Decodes a trimmed field as a small signed integer.
#[verifier::loop_isolation(false)]
pub fn parse_i8(v: &Vec<u8>) -> (r: Option<i8>)
    ensures
        r == spec_parse_i8(v@),
{
    let ghost s = v@;
    let n = v.len();
    let mut off: usize = 0;
    let mut neg: bool = false;
    if n > 0 && (v[0] == 43 || v[0] == 45) {
        neg = v[0] == 45;
        off = 1;
    }
    let ghost d = sign_split(s).1;
    proof {
        assert(d =~= s.subrange(off as int, n as int));
        assert(sign_split(s).0 == neg);
    }
    if n - off < 1 {
        return None;
    }
    let mut acc: i32 = 0;
    let mut i: usize = off;
    while i < n
        invariant
            off <= i <= n == v.len(),
            d == s.subrange(off as int, n as int),
            s == v@,
            forall|j: int| off <= j < i ==> is_digit(v@[j]),
            acc == digits_val(d.subrange(0, i - off)),
            0 <= acc <= 128,
        decreases n - i,
    {
        if !digit_byte(v[i]) {
            assert(!is_digit(d[i - off]));
            return None;
        }
        let dg = (v[i] - 48) as i32;
        proof {
            let t = d.subrange(0, i - off + 1);
            assert(t.drop_last() =~= d.subrange(0, i - off));
            assert(d[i - off] == v@[i as int]);
        }
        let next = acc * 10 + dg;
        if next > 128 {
            proof {
                if all_digits(d) {
                    lemma_digits_val_prefix(d, i - off + 1);
                }
            }
            return None;
        }
        acc = next;
        i = i + 1;
    }
    proof {
        assert(d.subrange(0, n - off) =~= d);
        assert(all_digits(d));
    }
    if neg {
        Some((-acc) as i8)
    } else {
        if acc > 127 {
            None
        } else {
            Some(acc as i8)
        }
    }
}

/// Decodes a trimmed field as a 0/1 flag.
pub fn parse_bool01(v: &Vec<u8>) -> (r: Option<bool>)
    ensures
        r == spec_parse_bool01(v@),
{
    match parse_i8(v) {
        Some(x) => if x == 0 {
            Some(false)
        } else if x == 1 {
            Some(true)
        } else {
            None
        },
        None => None,
    }
}

/// Rational value of the field at `[start, end)` of `line`.
pub open spec fn spec_field_rat(line: Seq<u8>, start: int, end: int) -> Option<RatV> {
    match spec_field(line, start, end) {
        Some(f) => spec_parse_rat(f),
        None => None,
    }
}

/// Small-integer value of the field at `[start, end)` of `line`.
pub open spec fn spec_field_i8(line: Seq<u8>, start: int, end: int) -> Option<i8> {
    match spec_field(line, start, end) {
        Some(f) => spec_parse_i8(f),
        None => None,
    }
}

/// 0/1 flag value of the field at `[start, end)` of `line`.
pub open spec fn spec_field_bool(line: Seq<u8>, start: int, end: int) -> Option<bool> {
    match spec_field(line, start, end) {
        Some(f) => spec_parse_bool01(f),
        None => None,
    }
}

/// Extracts the field at `[start, end)` of `line` and decodes it as a
/// decimal numeral.
pub fn field_rat(line: &Vec<u8>, start: usize, end: usize) -> (r: Option<Rat>)
    requires
        start <= end,
    ensures
        match r {
            Some(q) => spec_field_rat(line@, start as int, end as int) == Some(q@) && q.bounded(),
            None => spec_field_rat(line@, start as int, end as int) is None,
        },
{
    match extract_field(line, start, end) {
        Some(f) => parse_rat(&f),
        None => None,
    }
}

/// Extracts the field at `[start, end)` of `line` and decodes it as a
/// small signed integer.
pub fn field_i8(line: &Vec<u8>, start: usize, end: usize) -> (r: Option<i8>)
    requires
        start <= end,
    ensures
        r == spec_field_i8(line@, start as int, end as int),
{
    match extract_field(line, start, end) {
        Some(f) => parse_i8(&f),
        None => None,
    }
}

/// Extracts the field at `[start, end)` of `line` and decodes it as a
/// 0/1 flag.
pub fn field_bool(line: &Vec<u8>, start: usize, end: usize) -> (r: Option<bool>)
    requires
        start <= end,
    ensures
        r == spec_field_bool(line@, start as int, end as int),
{
    match extract_field(line, start, end) {
        Some(f) => parse_bool01(&f),
        None => None,
    }
}

} // verus!
