//! Character-level helpers shared by the parser, serializer and validator:
//! whitespace classification, bounded searches, trimming and line splitting,
//! plus conversions between `&str`, `Vec<char>` and `String`.

use vstd::prelude::*;
use vstd::string::StrSliceExecFns;

verus! {

/// Relies on String::push: appends the given character to the end of the string.
pub assume_specification[ std::string::String::push ](s: &mut String, c: char)
    ensures
        final(s)@ == old(s)@.push(c),
;

/// A character with the Unicode `White_Space` property, as recognised by
/// `char::is_whitespace`.
pub open spec fn is_ws_char(c: char) -> bool {
    ||| c == ' '
    ||| c == '\t'
    ||| c == '\n'
    ||| c == '\u{0B}'
    ||| c == '\u{0C}'
    ||| c == '\r'
    ||| c == '\u{85}'
    ||| c == '\u{A0}'
    ||| c == '\u{1680}'
    ||| (0x2000 <= c as u32 && c as u32 <= 0x200A)
    ||| c == '\u{2028}'
    ||| c == '\u{2029}'
    ||| c == '\u{202F}'
    ||| c == '\u{205F}'
    ||| c == '\u{3000}'
}

pub fn is_ws(c: char) -> (b: bool)
    ensures
        b == is_ws_char(c),
{
    c == ' ' || c == '\t' || c == '\n' || c == '\u{0B}' || c == '\u{0C}' || c == '\r'
        || c == '\u{85}' || c == '\u{A0}' || c == '\u{1680}'
        || (0x2000 <= c as u32 && c as u32 <= 0x200A) || c == '\u{2028}' || c == '\u{2029}'
        || c == '\u{202F}' || c == '\u{205F}' || c == '\u{3000}'
}

/// First index in `[lo, hi)` holding `c`; `hi` if there is none.
pub open spec fn find_in(s: Seq<char>, lo: int, hi: int, c: char) -> int
    decreases hi - lo,
{
    if lo < 0 || lo >= hi || hi > s.len() {
        hi
    } else if s[lo] == c {
        lo
    } else {
        find_in(s, lo + 1, hi, c)
    }
}

pub proof fn lemma_find_in(s: Seq<char>, lo: int, hi: int, c: char)
    requires
        0 <= lo <= hi <= s.len(),
    ensures
        lo <= find_in(s, lo, hi, c) <= hi,
        find_in(s, lo, hi, c) < hi ==> s[find_in(s, lo, hi, c)] == c,
        forall|k: int| lo <= k < find_in(s, lo, hi, c) ==> s[k] != c,
    decreases hi - lo,
{
    if lo < hi && s[lo] != c {
        lemma_find_in(s, lo + 1, hi, c);
    }
}

pub fn find_char(v: &Vec<char>, lo: usize, hi: usize, c: char) -> (r: usize)
    requires
        lo <= hi <= v@.len(),
    ensures
        r == find_in(v@, lo as int, hi as int, c),
        lo <= r <= hi,
{
    let mut i: usize = lo;
    while i < hi && v[i] != c
        invariant
            lo <= i <= hi <= v@.len(),
            find_in(v@, lo as int, hi as int, c) == find_in(v@, i as int, hi as int, c),
        decreases hi - i,
    {
        i = i + 1;
    }
    i
}

/// First index at or after `lo` (and below `hi`) whose character differs from
/// `c`; `hi` if the run extends to the end.
pub open spec fn run_end(s: Seq<char>, lo: int, hi: int, c: char) -> int
    decreases hi - lo,
{
    if lo < 0 || lo >= hi || hi > s.len() {
        hi
    } else if s[lo] == c {
        run_end(s, lo + 1, hi, c)
    } else {
        lo
    }
}

pub proof fn lemma_run_end(s: Seq<char>, lo: int, hi: int, c: char)
    requires
        0 <= lo <= hi <= s.len(),
    ensures
        lo <= run_end(s, lo, hi, c) <= hi,
        run_end(s, lo, hi, c) < hi ==> s[run_end(s, lo, hi, c)] != c,
        forall|k: int| lo <= k < run_end(s, lo, hi, c) ==> s[k] == c,
    decreases hi - lo,
{
    if lo < hi && s[lo] == c {
        lemma_run_end(s, lo + 1, hi, c);
    }
}

pub fn scan_run_end(v: &Vec<char>, lo: usize, hi: usize, c: char) -> (r: usize)
    requires
        lo <= hi <= v@.len(),
    ensures
        r == run_end(v@, lo as int, hi as int, c),
        lo <= r <= hi,
{
    let mut i: usize = lo;
    while i < hi && v[i] == c
        invariant
            lo <= i <= hi <= v@.len(),
            run_end(v@, lo as int, hi as int, c) == run_end(v@, i as int, hi as int, c),
        decreases hi - i,
    {
        i = i + 1;
    }
    i
}

/// First index in `[lo, hi)` holding a non-whitespace character; `hi` if all
/// of the range is whitespace.
pub open spec fn first_non_ws(s: Seq<char>, lo: int, hi: int) -> int
    decreases hi - lo,
{
    if lo < 0 || lo >= hi || hi > s.len() {
        hi
    } else if is_ws_char(s[lo]) {
        first_non_ws(s, lo + 1, hi)
    } else {
        lo
    }
}

pub proof fn lemma_first_non_ws(s: Seq<char>, lo: int, hi: int)
    requires
        0 <= lo <= hi <= s.len(),
    ensures
        lo <= first_non_ws(s, lo, hi) <= hi,
        first_non_ws(s, lo, hi) < hi ==> !is_ws_char(s[first_non_ws(s, lo, hi)]),
        forall|k: int| lo <= k < first_non_ws(s, lo, hi) ==> is_ws_char(s[k]),
    decreases hi - lo,
{
    if lo < hi && is_ws_char(s[lo]) {
        lemma_first_non_ws(s, lo + 1, hi);
    }
}

pub fn scan_first_non_ws(v: &Vec<char>, lo: usize, hi: usize) -> (r: usize)
    requires
        lo <= hi <= v@.len(),
    ensures
        r == first_non_ws(v@, lo as int, hi as int),
        lo <= r <= hi,
{
    let mut i: usize = lo;
    loop
        invariant
            lo <= i <= hi <= v@.len(),
            first_non_ws(v@, lo as int, hi as int) == first_non_ws(v@, i as int, hi as int),
        ensures
            first_non_ws(v@, lo as int, hi as int) == i,
        decreases hi - i,
    {
        if i < hi {
            let c = v[i];
            if is_ws(c) {
                i = i + 1;
            } else {
                break;
            }
        } else {
            break;
        }
    }
    i
}

/// One past the last non-whitespace character of `s.subrange(lo, hi)`,
/// i.e. where `trim_end` would cut.
pub open spec fn trim_end_at(s: Seq<char>, lo: int, hi: int) -> int
    decreases hi - lo,
{
    if lo < 0 || lo >= hi || hi > s.len() {
        lo
    } else if is_ws_char(s[hi - 1]) {
        trim_end_at(s, lo, hi - 1)
    } else {
        hi
    }
}

pub fn scan_trim_end(v: &Vec<char>, lo: usize, hi: usize) -> (r: usize)
    requires
        lo <= hi <= v@.len(),
    ensures
        r == trim_end_at(v@, lo as int, hi as int),
        lo <= r <= hi,
{
    let mut j: usize = hi;
    loop
        invariant
            lo <= j <= hi <= v@.len(),
            trim_end_at(v@, lo as int, hi as int) == trim_end_at(v@, lo as int, j as int),
        ensures
            trim_end_at(v@, lo as int, hi as int) == j,
        decreases j,
    {
        if j > lo {
            let c = v[j - 1];
            if is_ws(c) {
                j = j - 1;
            } else {
                break;
            }
        } else {
            break;
        }
    }
    j
}

/// The whole range `[lo, hi)` is whitespace (so `trim` leaves nothing).
pub open spec fn all_ws(s: Seq<char>, lo: int, hi: int) -> bool {
    first_non_ws(s, lo, hi) == hi
}

/// `trim_start` of the range starts with `#`, i.e. the line is a comment.
pub open spec fn starts_hash_after_ws(s: Seq<char>, lo: int, hi: int) -> bool {
    first_non_ws(s, lo, hi) < hi && s[first_non_ws(s, lo, hi)] == '#'
}

/// A trailing carriage return left by a `\r\n` line ending is dropped.
pub open spec fn chop_cr(l: Seq<char>) -> Seq<char> {
    if l.len() > 0 && l[l.len() - 1] == '\r' {
        l.drop_last()
    } else {
        l
    }
}

/// The lines of `s` from position `i` on, split exactly as `str::lines` does:
/// terminated by `\n` or `\r\n`, with an optional final unterminated line.
pub open spec fn lines_from(s: Seq<char>, i: int) -> Seq<Seq<char>>
    decreases s.len() - i,
    via lines_from_dec
{
    if i < 0 || i >= s.len() {
        Seq::empty()
    } else {
        let j = find_in(s, i, s.len() as int, '\n');
        if j >= s.len() {
            seq![s.subrange(i, s.len() as int)]
        } else {
            seq![chop_cr(s.subrange(i, j))] + lines_from(s, j + 1)
        }
    }
}

#[via_fn]
proof fn lines_from_dec(s: Seq<char>, i: int) {
    if 0 <= i && i < s.len() {
        lemma_find_in(s, i, s.len() as int, '\n');
    }
}

pub open spec fn spec_lines(s: Seq<char>) -> Seq<Seq<char>> {
    lines_from(s, 0)
}

pub fn str_to_chars(s: &str) -> (v: Vec<char>)
    ensures
        v@ == s@,
{
    let n = s.unicode_len();
    let mut v: Vec<char> = Vec::new();
    proof {
        assert(v@ =~= s@.take(0));
    }
    let mut i: usize = 0;
    while i < n
        invariant
            i <= n,
            n == s@.len(),
            v@ == s@.take(i as int),
        decreases n - i,
    {
        let c = s.get_char(i);
        v.push(c);
        proof {
            assert(v@ =~= s@.take(i + 1));
        }
        i = i + 1;
    }
    proof {
        assert(s@.take(n as int) =~= s@);
    }
    v
}

pub fn chars_to_string(v: &Vec<char>, lo: usize, hi: usize) -> (s: String)
    requires
        lo <= hi <= v@.len(),
    ensures
        s@ == v@.subrange(lo as int, hi as int),
{
    let mut s = String::new();
    proof {
        assert(s@ =~= v@.subrange(lo as int, lo as int));
    }
    let mut i: usize = lo;
    while i < hi
        invariant
            lo <= i <= hi <= v@.len(),
            s@ == v@.subrange(lo as int, i as int),
        decreases hi - i,
    {
        let c = v[i];
        s.push(c);
        proof {
            assert(s@ =~= v@.subrange(lo as int, i + 1));
        }
        i = i + 1;
    }
    s
}

pub fn subrange_chars(v: &Vec<char>, lo: usize, hi: usize) -> (r: Vec<char>)
    requires
        lo <= hi <= v@.len(),
    ensures
        r@ == v@.subrange(lo as int, hi as int),
{
    let mut r: Vec<char> = Vec::new();
    proof {
        assert(r@ =~= v@.subrange(lo as int, lo as int));
    }
    let mut i: usize = lo;
    while i < hi
        invariant
            lo <= i <= hi <= v@.len(),
            r@ == v@.subrange(lo as int, i as int),
        decreases hi - i,
    {
        let c = v[i];
        r.push(c);
        proof {
            assert(r@ =~= v@.subrange(lo as int, i + 1));
        }
        i = i + 1;
    }
    r
}

/// Split `text` into lines exactly as `str::lines` would.
pub fn split_lines(text: &Vec<char>) -> (lines: Vec<Vec<char>>)
    ensures
        lines.deep_view() == spec_lines(text@),
{
    let n = text.len();
    let mut lines: Vec<Vec<char>> = Vec::new();
    proof {
        assert(lines.deep_view() + lines_from(text@, 0) =~~= spec_lines(text@));
    }
    let mut i: usize = 0;
    while i < n
        invariant
            i <= n,
            n == text@.len(),
            spec_lines(text@) == lines.deep_view() + lines_from(text@, i as int),
        decreases n - i,
    {
        let j = find_char(text, i, n, '\n');
        proof {
            lemma_find_in(text@, i as int, n as int, '\n');
        }
        let ghost prev = lines.deep_view();
        if j >= n {
            let l = subrange_chars(text, i, n);
            lines.push(l);
            proof {
                assert(lines.deep_view() =~~= prev + seq![text@.subrange(i as int, n as int)]);
                assert(lines.deep_view() + lines_from(text@, n as int) =~~= prev + lines_from(text@, i as int));
            }
            i = n;
        } else {
            let cut = if j > i && text[j - 1] == '\r' {
                j - 1
            } else {
                j
            };
            let l = subrange_chars(text, i, cut);
            proof {
                if j > i && text@[j - 1] == '\r' {
                    assert(text@.subrange(i as int, cut as int) =~= chop_cr(
                        text@.subrange(i as int, j as int),
                    ));
                } else {
                    assert(text@.subrange(i as int, cut as int) =~= chop_cr(
                        text@.subrange(i as int, j as int),
                    ));
                }
            }
            lines.push(l);
            proof {
                assert(lines.deep_view() =~~= prev + seq![chop_cr(
                    text@.subrange(i as int, j as int),
                )]);
                assert(prev + lines_from(text@, i as int) =~~= lines.deep_view() + lines_from(
                    text@,
                    j + 1,
                ));
            }
            i = j + 1;
        }
    }
    proof {
        assert(spec_lines(text@) =~~= lines.deep_view());
    }
    lines
}

} // verus!
