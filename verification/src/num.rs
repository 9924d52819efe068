//! Decimal text: recognising and reading signed 64-bit integers, rendering
//! integers back to text, and recognising the textual grammar of 64-bit
//! floating-point literals (the grammar of `f64`'s `FromStr`). Float values
//! themselves are carried as their source text throughout the crate, so no
//! floating-point arithmetic is needed to parse or serialize them.

use vstd::prelude::*;
use crate::text::find_in;
use crate::text::lemma_find_in;

verus! {

pub open spec fn is_digit_char(c: char) -> bool {
    48 <= c as u32 && c as u32 <= 57
}

pub open spec fn digit_of(c: char) -> int {
    c as u32 - 48
}

pub open spec fn all_digits(s: Seq<char>, lo: int, hi: int) -> bool {
    forall|k: int| lo <= k < hi ==> is_digit_char(#[trigger] s[k])
}

/// Value of the decimal digits `s[lo..hi]` read left to right, on top of an
/// accumulator.
pub open spec fn dec_val_from(s: Seq<char>, lo: int, hi: int, acc: int) -> int
    decreases hi - lo,
{
    if lo < 0 || lo >= hi || hi > s.len() {
        acc
    } else {
        dec_val_from(s, lo + 1, hi, acc * 10 + digit_of(s[lo]))
    }
}

/// Index where the digits of an optionally signed integer literal begin.
pub open spec fn sign_skip(s: Seq<char>) -> int {
    if s.len() > 0 && (s[0] == '-' || s[0] == '+') {
        1int
    } else {
        0int
    }
}

pub open spec fn int_sign(s: Seq<char>) -> int {
    if s.len() > 0 && s[0] == '-' {
        -1int
    } else {
        1int
    }
}

/// The signed value denoted by `s`, assuming it is an integer literal.
pub open spec fn spec_int_val(s: Seq<char>) -> int {
    int_sign(s) * dec_val_from(s, sign_skip(s), s.len() as int, 0)
}

/// `s` is exactly what `i64`'s `FromStr` accepts: an optional sign, one or
/// more decimal digits, and a value within the `i64` range.
pub open spec fn is_i64_text(s: Seq<char>) -> bool {
    &&& sign_skip(s) < s.len()
    &&& all_digits(s, sign_skip(s), s.len() as int)
    &&& i64::MIN <= spec_int_val(s) <= i64::MAX
}

pub proof fn lemma_dec_val_acc_monotonic(s: Seq<char>, lo: int, hi: int, acc: int)
    requires
        all_digits(s, lo, hi),
        acc >= 0,
    ensures
        dec_val_from(s, lo, hi, acc) >= acc,
    decreases hi - lo,
{
    if !(lo < 0 || lo >= hi || hi > s.len()) {
        assert(digit_of(s[lo]) >= 0);
        lemma_dec_val_acc_monotonic(s, lo + 1, hi, acc * 10 + digit_of(s[lo]));
    }
}

/// Reads the digit range `[lo, hi)` as exec code does, one digit at a time;
/// bails out (returning `None`) once the value can no longer be an `i64`.
fn read_digits(v: &Vec<char>, lo: usize, hi: usize) -> (r: Option<u128>)
    requires
        lo <= hi <= v@.len(),
    ensures
        match r {
            Some(acc) => {
                &&& all_digits(v@, lo as int, hi as int)
                &&& acc == dec_val_from(v@, lo as int, hi as int, 0)
                &&& acc < 0x1_0000_0000_0000_0000u128
            },
            None => {
                ||| !all_digits(v@, lo as int, hi as int)
                ||| dec_val_from(v@, lo as int, hi as int, 0) >= 0x1_0000_0000_0000_0000
            },
        },
{
    let mut i: usize = lo;
    let mut acc: u128 = 0;
    while i < hi
        invariant
            lo <= i <= hi <= v@.len(),
            all_digits(v@, lo as int, i as int),
            acc == dec_val_from(v@, lo as int, i as int, 0),
            acc < 0x1_0000_0000_0000_0000u128,
        decreases hi - i,
    {
        let c = v[i];
        let u = c as u32;
        if u < 48 || u > 57 {
            assert(!is_digit_char(v@[i as int]));
            return None;
        }
        let d: u128 = (u - 48) as u128;
        let next: u128 = acc * 10 + d;
        proof {
            lemma_dec_val_snoc(v@, lo as int, i + 1, 0);
        }
        if next >= 0x1_0000_0000_0000_0000u128 {
            proof {
                if all_digits(v@, lo as int, hi as int) {
                    lemma_dec_val_split(v@, lo as int, i + 1, hi as int, 0);
                    lemma_dec_val_acc_monotonic(v@, i + 1, hi as int, next as int);
                }
            }
            return None;
        }
        acc = next;
        i = i + 1;
    }
    Some(acc)
}

/// Reading `[lo, hi)` equals reading `[lo, mid)` and continuing from its
/// accumulated value.
pub proof fn lemma_dec_val_split(s: Seq<char>, lo: int, mid: int, hi: int, acc: int)
    requires
        0 <= lo <= mid <= hi <= s.len(),
    ensures
        dec_val_from(s, lo, hi, acc) == dec_val_from(s, mid, hi, dec_val_from(s, lo, mid, acc)),
    decreases mid - lo,
{
    if lo < mid {
        lemma_dec_val_split(s, lo + 1, mid, hi, acc * 10 + digit_of(s[lo]));
    }
}

/// Extending a digit range by its last digit multiplies the value by ten and
/// adds that digit.
pub proof fn lemma_dec_val_snoc(s: Seq<char>, lo: int, hi: int, acc: int)
    requires
        0 <= lo < hi <= s.len(),
    ensures
        dec_val_from(s, lo, hi, acc) == dec_val_from(s, lo, hi - 1, acc) * 10 + digit_of(
            s[hi - 1],
        ),
    decreases hi - lo,
{
    assert(dec_val_from(s, lo, hi, acc) == dec_val_from(s, lo + 1, hi, acc * 10 + digit_of(s[lo])));
    if lo < hi - 1 {
        lemma_dec_val_snoc(s, lo + 1, hi, acc * 10 + digit_of(s[lo]));
    } else {
        assert(dec_val_from(s, lo + 1, hi, acc * 10 + digit_of(s[lo])) == acc * 10 + digit_of(s[lo]));
        assert(dec_val_from(s, lo, hi - 1, acc) == acc);
    }
}

/// Reads `v` exactly as `i64`'s `FromStr` would: `Some` on precisely the
/// strings that form an in-range signed decimal literal.
pub fn parse_i64_chars(v: &Vec<char>) -> (r: Option<i64>)
    ensures
        r is Some <==> is_i64_text(v@),
        r is Some ==> r->0 as int == spec_int_val(v@),
{
    let n = v.len();
    let mut ds: usize = 0;
    let mut neg = false;
    if n > 0 && (v[0] == '-' || v[0] == '+') {
        ds = 1;
        neg = v[0] == '-';
    }
    if ds >= n {
        return None;
    }
    let acc = match read_digits(v, ds, n) {
        Some(acc) => acc,
        None => {
            proof {
                if all_digits(v@, ds as int, n as int) {
                    let dv = dec_val_from(v@, ds as int, n as int, 0);
                    assert(dv >= 0x1_0000_0000_0000_0000);
                    assert(spec_int_val(v@) == int_sign(v@) * dv);
                }
            }
            return None;
        },
    };
    proof {
        lemma_dec_val_acc_monotonic(v@, ds as int, n as int, 0);
    }
    if neg {
        if acc > 0x8000_0000_0000_0000u128 {
            return None;
        }
        if acc == 0x8000_0000_0000_0000u128 {
            Some(i64::MIN)
        } else {
            Some(-(acc as i64))
        }
    } else {
        if acc > 0x7FFF_FFFF_FFFF_FFFFu128 {
            return None;
        }
        Some(acc as i64)
    }
}

/// Digit character for `0 <= d <= 9`.
pub open spec fn digit_char(d: int) -> char {
    if d == 0 {
        '0'
    } else if d == 1 {
        '1'
    } else if d == 2 {
        '2'
    } else if d == 3 {
        '3'
    } else if d == 4 {
        '4'
    } else if d == 5 {
        '5'
    } else if d == 6 {
        '6'
    } else if d == 7 {
        '7'
    } else if d == 8 {
        '8'
    } else {
        '9'
    }
}

/// Canonical decimal rendering of a non-negative integer.
pub open spec fn u_dec_str(n: int) -> Seq<char>
    decreases n,
{
    if n < 10 {
        seq![digit_char(n)]
    } else {
        u_dec_str(n / 10) + seq![digit_char(n % 10)]
    }
}

/// Canonical decimal rendering of an integer, as `i64::to_string` yields it.
pub open spec fn int_text(i: int) -> Seq<char> {
    if i < 0 {
        seq!['-'] + u_dec_str(-i)
    } else {
        u_dec_str(i)
    }
}

fn digit_to_char(d: u64) -> (c: char)
    requires
        d <= 9,
    ensures
        c == digit_char(d as int),
{
    if d == 0 {
        '0'
    } else if d == 1 {
        '1'
    } else if d == 2 {
        '2'
    } else if d == 3 {
        '3'
    } else if d == 4 {
        '4'
    } else if d == 5 {
        '5'
    } else if d == 6 {
        '6'
    } else if d == 7 {
        '7'
    } else if d == 8 {
        '8'
    } else {
        '9'
    }
}

pub fn u64_digits(n: u64) -> (v: Vec<char>)
    ensures
        v@ == u_dec_str(n as int),
    decreases n,
{
    if n < 10 {
        let mut v: Vec<char> = Vec::new();
        v.push(digit_to_char(n));
        proof {
            assert(v@ =~= u_dec_str(n as int));
        }
        v
    } else {
        let mut v = u64_digits(n / 10);
        v.push(digit_to_char(n % 10));
        proof {
            assert(v@ =~= u_dec_str(n as int));
        }
        v
    }
}

/// Renders `i` exactly as `i64::to_string` does.
pub fn i64_to_chars(i: i64) -> (v: Vec<char>)
    ensures
        v@ == int_text(i as int),
{
    if i >= 0 {
        u64_digits(i as u64)
    } else {
        let m = i as i128;
        let u: u64 = (-m) as u64;
        let digits = u64_digits(u);
        let mut v: Vec<char> = Vec::new();
        v.push('-');
        let mut k: usize = 0;
        while k < digits.len()
            invariant
                k <= digits@.len(),
                v@ == seq!['-'] + digits@.take(k as int),
            decreases digits@.len() - k,
        {
            let c = digits[k];
            v.push(c);
            proof {
                assert(v@ =~= seq!['-'] + digits@.take(k + 1));
            }
            k = k + 1;
        }
        proof {
            assert(digits@.take(digits@.len() as int) =~= digits@);
            assert(v@ =~= int_text(i as int));
        }
        v
    }
}

// ---------------------------------------------------------------------------
// The textual grammar accepted by `f64`'s `FromStr`:
//   [sign] ( 'inf' | 'infinity' | 'nan' | number )   (words case-insensitive)
//   number ::= digits [ '.' [digits] ] [exp] | '.' digits [exp]
//   exp    ::= ('e' | 'E') [sign] digits
// ---------------------------------------------------------------------------

/// `a` equals the lowercase ASCII letter `b`, ignoring ASCII case.
pub open spec fn ci_eq(a: char, b: char) -> bool {
    a == b || a as u32 == b as u32 - 32
}

/// The range `[lo, hi)` spells `w`, ignoring ASCII case.
pub open spec fn matches_ci(s: Seq<char>, lo: int, hi: int, w: Seq<char>) -> bool {
    hi - lo == w.len() && (forall|k: int| 0 <= k < w.len() ==> ci_eq(s[lo + k], #[trigger] w[k]))
}

pub open spec fn inf_word() -> Seq<char> {
    seq!['i', 'n', 'f']
}

pub open spec fn infinity_word() -> Seq<char> {
    seq!['i', 'n', 'f', 'i', 'n', 'i', 't', 'y']
}

pub open spec fn nan_word() -> Seq<char> {
    seq!['n', 'a', 'n']
}

/// First index in `[lo, hi)` holding an exponent marker (`e` or `E`).
pub open spec fn find_exp(s: Seq<char>, lo: int, hi: int) -> int
    decreases hi - lo,
{
    if lo < 0 || lo >= hi || hi > s.len() {
        hi
    } else if s[lo] == 'e' || s[lo] == 'E' {
        lo
    } else {
        find_exp(s, lo + 1, hi)
    }
}

pub proof fn lemma_find_exp(s: Seq<char>, lo: int, hi: int)
    requires
        0 <= lo <= hi <= s.len(),
    ensures
        lo <= find_exp(s, lo, hi) <= hi,
        find_exp(s, lo, hi) < hi ==> s[find_exp(s, lo, hi)] == 'e' || s[find_exp(s, lo, hi)]
            == 'E',
        forall|k: int| lo <= k < find_exp(s, lo, hi) ==> s[k] != 'e' && s[k] != 'E',
    decreases hi - lo,
{
    if lo < hi && s[lo] != 'e' && s[lo] != 'E' {
        lemma_find_exp(s, lo + 1, hi);
    }
}

/// Mantissa: `digits [ '.' [digits] ]` or `'.' digits`.
pub open spec fn is_mantissa(s: Seq<char>, lo: int, hi: int) -> bool {
    let d = find_in(s, lo, hi, '.');
    if d == hi {
        lo < hi && all_digits(s, lo, hi)
    } else {
        all_digits(s, lo, d) && all_digits(s, d + 1, hi) && (d > lo || d + 1 < hi)
    }
}

/// Exponent part after the marker: optional sign, then one or more digits.
pub open spec fn is_exp_part(s: Seq<char>, lo: int, hi: int) -> bool {
    let ds = if lo < hi && (s[lo] == '-' || s[lo] == '+') {
        lo + 1
    } else {
        lo
    };
    ds < hi && all_digits(s, ds, hi)
}

pub open spec fn is_number_text(s: Seq<char>, lo: int, hi: int) -> bool {
    let e = find_exp(s, lo, hi);
    if e == hi {
        is_mantissa(s, lo, hi)
    } else {
        is_mantissa(s, lo, e) && is_exp_part(s, e + 1, hi)
    }
}

/// `s` is exactly what `f64`'s `FromStr` accepts.
pub open spec fn is_float_text(s: Seq<char>) -> bool {
    let ds = sign_skip(s);
    ||| matches_ci(s, ds, s.len() as int, inf_word())
    ||| matches_ci(s, ds, s.len() as int, infinity_word())
    ||| matches_ci(s, ds, s.len() as int, nan_word())
    ||| is_number_text(s, ds, s.len() as int)
}

fn ci_eq_exec(a: char, b: char) -> (r: bool)
    ensures
        r == ci_eq(a, b),
{
    a == b || (b as u32 >= 32 && a as u32 == b as u32 - 32)
}

/// Checks the range `[lo, hi)` against a lowercase word, ignoring ASCII case.
fn matches_ci_exec(v: &Vec<char>, lo: usize, hi: usize, w: &Vec<char>) -> (r: bool)
    requires
        lo <= hi <= v@.len(),
    ensures
        r == matches_ci(v@, lo as int, hi as int, w@),
{
    if hi - lo != w.len() {
        return false;
    }
    let mut k: usize = 0;
    while k < w.len()
        invariant
            lo <= hi <= v@.len(),
            hi - lo == w@.len(),
            k <= w@.len(),
            forall|t: int| 0 <= t < k ==> ci_eq(v@[lo + t], #[trigger] w@[t]),
        decreases w@.len() - k,
    {
        if !ci_eq_exec(v[lo + k], w[k]) {
            return false;
        }
        k = k + 1;
    }
    true
}

fn check_digits(v: &Vec<char>, lo: usize, hi: usize) -> (r: bool)
    requires
        lo <= hi <= v@.len(),
    ensures
        r == all_digits(v@, lo as int, hi as int),
{
    let mut k: usize = lo;
    while k < hi
        invariant
            lo <= k <= hi <= v@.len(),
            all_digits(v@, lo as int, k as int),
        decreases hi - k,
    {
        let u = v[k] as u32;
        if u < 48 || u > 57 {
            assert(!is_digit_char(v@[k as int]));
            return false;
        }
        k = k + 1;
    }
    true
}

fn scan_exp(v: &Vec<char>, lo: usize, hi: usize) -> (r: usize)
    requires
        lo <= hi <= v@.len(),
    ensures
        r == find_exp(v@, lo as int, hi as int),
        lo <= r <= hi,
{
    let mut i: usize = lo;
    while i < hi && v[i] != 'e' && v[i] != 'E'
        invariant
            lo <= i <= hi <= v@.len(),
            find_exp(v@, lo as int, hi as int) == find_exp(v@, i as int, hi as int),
        decreases hi - i,
    {
        i = i + 1;
    }
    i
}

fn check_mantissa(v: &Vec<char>, lo: usize, hi: usize) -> (r: bool)
    requires
        lo <= hi <= v@.len(),
    ensures
        r == is_mantissa(v@, lo as int, hi as int),
{
    let d = crate::text::find_char(v, lo, hi, '.');
    proof {
        lemma_find_in(v@, lo as int, hi as int, '.');
    }
    if d == hi {
        lo < hi && check_digits(v, lo, hi)
    } else {
        check_digits(v, lo, d) && check_digits(v, d + 1, hi) && (d > lo || d + 1 < hi)
    }
}

fn check_exp_part(v: &Vec<char>, lo: usize, hi: usize) -> (r: bool)
    requires
        lo <= hi <= v@.len(),
    ensures
        r == is_exp_part(v@, lo as int, hi as int),
{
    let ds = if lo < hi && (v[lo] == '-' || v[lo] == '+') {
        lo + 1
    } else {
        lo
    };
    ds < hi && check_digits(v, ds, hi)
}

/// Checks whether `v` would be accepted by `f64`'s `FromStr`.
pub fn is_float_chars(v: &Vec<char>) -> (r: bool)
    ensures
        r == is_float_text(v@),
{
    let n = v.len();
    let mut ds: usize = 0;
    if n > 0 && (v[0] == '-' || v[0] == '+') {
        ds = 1;
    }
    let mut inf: Vec<char> = Vec::new();
    inf.push('i');
    inf.push('n');
    inf.push('f');
    proof {
        assert(inf@ =~= inf_word());
    }
    if matches_ci_exec(v, ds, n, &inf) {
        return true;
    }
    let mut infinity: Vec<char> = Vec::new();
    infinity.push('i');
    infinity.push('n');
    infinity.push('f');
    infinity.push('i');
    infinity.push('n');
    infinity.push('i');
    infinity.push('t');
    infinity.push('y');
    proof {
        assert(infinity@ =~= infinity_word());
    }
    if matches_ci_exec(v, ds, n, &infinity) {
        return true;
    }
    let mut nan: Vec<char> = Vec::new();
    nan.push('n');
    nan.push('a');
    nan.push('n');
    proof {
        assert(nan@ =~= nan_word());
    }
    if matches_ci_exec(v, ds, n, &nan) {
        return true;
    }
    let e = scan_exp(v, ds, n);
    if e == n {
        check_mantissa(v, ds, n)
    } else {
        check_mantissa(v, ds, e) && check_exp_part(v, e + 1, n)
    }
}

} // verus!
