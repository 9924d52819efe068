//! The parse/stringify round trip.
//!
//! [`round_trippable`] delimits the value trees the text format can carry
//! faithfully: object roots whose keys are printable key text and whose
//! string leaves avoid the reserved sentinels, tabs, line breaks and the
//! numeric and boolean spellings — the classes documented as
//! non-round-trippable are exactly what it excludes. For such trees,
//! parsing the serialized text reproduces the tree, and serialization
//! reaches a fixed point after one cycle.

use vstd::prelude::*;
use crate::num::all_digits;
use crate::num::digit_of;
use crate::num::dec_val_from;
use crate::num::digit_char;
use crate::num::find_exp;
use crate::num::int_sign;
use crate::num::int_text;
use crate::num::is_digit_char;
use crate::num::is_float_text;
use crate::num::is_i64_text;
use crate::num::is_mantissa;
use crate::num::matches_ci;
use crate::num::ci_eq;
use crate::num::inf_word;
use crate::num::infinity_word;
use crate::num::nan_word;
use crate::num::sign_skip;
use crate::num::spec_int_val;
use crate::num::u_dec_str;
use crate::num::lemma_dec_val_snoc;
use crate::parser::empty_tok;
use crate::parser::false_tok;
use crate::parser::null_tok;
use crate::parser::spec_coerce;
use crate::parser::true_tok;
use crate::serializer::leaf_text;
use crate::serializer::tabs;
use crate::parser::classify_line;
use crate::parser::EntryModel;
use crate::parser::LineClass;
use crate::text::all_ws;
use crate::text::starts_hash_after_ws;
use crate::text::first_non_ws;
use crate::text::lemma_first_non_ws;
use crate::text::run_end;
use crate::text::lemma_run_end;
use crate::text::trim_end_at;
use crate::text::chop_cr;
use crate::text::lines_from;
use crate::serializer::join_lines;
use crate::serializer::ser_obj_lines;
use crate::serializer::ser_arr_lines;
use crate::serializer::ser_value_lines;
use crate::serializer::spec_stringify;
use crate::text::spec_lines;
use crate::parser::entries_from;
use crate::text::is_ws_char;
use crate::text::find_in;
use crate::text::lemma_find_in;
use crate::value::ValueModel;
use crate::value::key_idx;

verus! {

/// Key text the format can carry on a line of its own at any depth: nonempty,
/// free of tabs and line breaks, not beginning or ending in whitespace, and
/// not beginning with the comment marker.
pub open spec fn rt_key(k: Seq<char>) -> bool {
    &&& k.len() > 0
    &&& (forall|i: int| 0 <= i < k.len() ==> k[i] != '\t' && k[i] != '\n' && k[i] != '\r')
    &&& !is_ws_char(k[0])
    &&& !is_ws_char(k[k.len() - 1])
    &&& k[0] != '#'
}

/// String leaf text that survives a round trip: either empty (carried by the
/// sentinel) or free of tabs and line breaks, without trailing whitespace,
/// and not spelled like any other leaf kind.
pub open spec fn rt_string(s: Seq<char>) -> bool {
    s.len() == 0 || {
        &&& (forall|i: int| 0 <= i < s.len() ==> s[i] != '\t' && s[i] != '\n' && s[i] != '\r')
        &&& !is_ws_char(s[s.len() - 1])
        &&& s != null_tok()
        &&& s != empty_tok()
        &&& s != true_tok()
        &&& s != false_tok()
        &&& !is_i64_text(s)
        &&& !is_float_text(s)
    }
}

/// The value trees the format carries faithfully.
pub open spec fn round_trippable(v: ValueModel) -> bool
    decreases v,
{
    match v {
        ValueModel::Str(s) => rt_string(s),
        ValueModel::Int(i) => i64::MIN <= i <= i64::MAX,
        ValueModel::Float(t) => is_float_text(t) && !is_i64_text(t),
        ValueModel::Bool(_) => true,
        ValueModel::Null => true,
        ValueModel::Arr(items) => {
            &&& items.len() > 0
            &&& (forall|i: int|
                0 <= i < items.len() ==> (#[trigger] items[i]) is Str && rt_key(items[i]->Str_0))
        },
        ValueModel::Obj(es) => rt_obj(es),
    }
}

/// Round-trippable object entries: printable distinct keys, round-trippable
/// members, and — unless the object is empty — at least one member that is
/// not an empty object, since a block of bare keys would read back as an
/// array.
pub open spec fn rt_obj(es: Seq<(Seq<char>, ValueModel)>) -> bool
    decreases es,
{
    &&& (forall|i: int|
        0 <= i < es.len() ==> rt_key((#[trigger] es[i]).0) && round_trippable(es[i].1))
    &&& (forall|i: int, j: int| 0 <= i < j < es.len() ==> es[i].0 != es[j].0)
    &&& (es.len() > 0 ==> exists|i: int|
        0 <= i < es.len() && !((#[trigger] es[i]).1 matches ValueModel::Obj(inner)
            && inner.len() == 0))
}

// ---------------------------------------------------------------------------
// Character classes of rendered leaves
// ---------------------------------------------------------------------------

/// Every character of a canonical unsigned decimal rendering is a digit.
proof fn lemma_u_dec_str_digits(n: int)
    requires
        n >= 0,
    ensures
        u_dec_str(n).len() > 0,
        all_digits(u_dec_str(n), 0, u_dec_str(n).len() as int),
        is_digit_char(u_dec_str(n)[0]),
    decreases n,
{
    if n < 10 {
        assert(u_dec_str(n) == seq![digit_char(n)]);
        assert(is_digit_char(digit_char(n)));
    } else {
        lemma_u_dec_str_digits(n / 10);
        assert(is_digit_char(digit_char(n % 10)));
        assert(forall|i: int|
            0 <= i < u_dec_str(n).len() ==> is_digit_char(#[trigger] u_dec_str(n)[i]));
    }
}

/// Reading back a canonical unsigned decimal rendering gives the number.
proof fn lemma_u_dec_str_val(n: int)
    requires
        n >= 0,
    ensures
        dec_val_from(u_dec_str(n), 0, u_dec_str(n).len() as int, 0) == n,
    decreases n,
{
    let s = u_dec_str(n);
    if n < 10 {
        assert(digit_of(digit_char(n)) == n);
        assert(dec_val_from(s, 0, 1, 0) == dec_val_from(s, 1, 1, digit_of(s[0])));
    } else {
        lemma_u_dec_str_val(n / 10);
        lemma_u_dec_str_digits(n / 10);
        let p = u_dec_str(n / 10);
        assert(s == p + seq![digit_char(n % 10)]);
        lemma_dec_val_prefix(p, seq![digit_char(n % 10)], 0, p.len() as int, 0);
        lemma_dec_val_snoc(s, 0, s.len() as int, 0);
        assert(digit_of(digit_char(n % 10)) == n % 10);
        assert(dec_val_from(s, 0, s.len() - 1, 0) == n / 10);
        assert(n / 10 * 10 + n % 10 == n) by (nonlinear_arith);
    }
}

/// Reading digits ignores anything appended after the range.
proof fn lemma_dec_val_prefix(a: Seq<char>, b: Seq<char>, lo: int, hi: int, acc: int)
    requires
        0 <= lo,
        lo <= hi <= a.len(),
    ensures
        dec_val_from(a + b, lo, hi, acc) == dec_val_from(a, lo, hi, acc),
    decreases hi - lo,
{
    if lo < hi {
        assert((a + b)[lo] == a[lo]);
        lemma_dec_val_prefix(a, b, lo + 1, hi, acc * 10 + digit_of(a[lo]));
    }
}

/// Reading digits is unchanged by dropping characters before the range.
proof fn lemma_dec_val_shift(a: Seq<char>, s: Seq<char>, lo: int, acc: int)
    requires
        0 <= lo <= s.len(),
    ensures
        dec_val_from(a + s, a.len() + lo, (a.len() + s.len()) as int, acc) == dec_val_from(
            s,
            lo,
            s.len() as int,
            acc,
        ),
    decreases s.len() - lo,
{
    if lo < s.len() {
        assert((a + s)[a.len() + lo] == s[lo]);
        lemma_dec_val_shift(a, s, lo + 1, acc * 10 + digit_of(s[lo]));
    }
}

/// The canonical rendering of an `i64` value reads back as that value, and
/// is not spelled like any other leaf kind.
proof fn lemma_int_text_roundtrip(i: int)
    requires
        i64::MIN <= i <= i64::MAX,
    ensures
        is_i64_text(int_text(i)),
        spec_int_val(int_text(i)) == i,
        int_text(i) != null_tok(),
        int_text(i) != empty_tok(),
        int_text(i) != true_tok(),
        int_text(i) != false_tok(),
{
    let t = int_text(i);
    if i >= 0 {
        lemma_u_dec_str_digits(i);
        lemma_u_dec_str_val(i);
        assert(t[0] != '-' && t[0] != '+');
        assert(sign_skip(t) == 0);
        assert(int_sign(t) == 1);
    } else {
        lemma_u_dec_str_digits(-i);
        lemma_u_dec_str_val(-i);
        let d = u_dec_str(-i);
        assert(t == seq!['-'] + d);
        assert(t[0] == '-');
        assert(sign_skip(t) == 1);
        assert(int_sign(t) == -1);
        lemma_dec_val_shift(seq!['-'], d, 0, 0);
        assert(t.len() == 1 + d.len());
        assert(forall|k: int| 1 <= k < t.len() ==> t[k] == d[k - 1]);
        assert(all_digits(t, 1, t.len() as int));
        assert(dec_val_from(t, 1, t.len() as int, 0) == -i);
    }
    assert(!is_digit_char('~') && '~' != '-');
    assert(!is_digit_char('"') && '"' != '-');
    assert(!is_digit_char('t') && 't' != '-');
    assert(!is_digit_char('f') && 'f' != '-');
    assert(t != null_tok()) by {
        if t == null_tok() {
            assert(t[0] == '~');
        }
    }
    assert(t != empty_tok()) by {
        if t == empty_tok() {
            assert(t[0] == '"');
        }
    }
    assert(t != true_tok()) by {
        if t == true_tok() {
            assert(t[0] == 't');
        }
    }
    assert(t != false_tok()) by {
        if t == false_tok() {
            assert(t[0] == 'f');
        }
    }
}

/// No character of float-shaped text is whitespace.
proof fn lemma_float_text_chars(t: Seq<char>)
    requires
        is_float_text(t),
    ensures
        t.len() > 0,
        forall|i: int| 0 <= i < t.len() ==> !is_ws_char(#[trigger] t[i]),
{
    let n = t.len() as int;
    let ds = sign_skip(t);
    assert forall|i: int| 0 <= i < n implies !is_ws_char(#[trigger] t[i]) by {
        if i < ds {
            assert(t[i] == '-' || t[i] == '+');
        } else {
            lemma_float_body_char(t, ds, i);
        }
    }
}

/// Character class of the part after the sign of float-shaped text.
proof fn lemma_float_body_char(t: Seq<char>, ds: int, i: int)
    requires
        is_float_text(t),
        ds == sign_skip(t),
        ds <= i < t.len(),
    ensures
        !is_ws_char(t[i]),
{
    let n = t.len() as int;
    if matches_ci(t, ds, n, inf_word()) {
        assert(ci_eq(t[ds + (i - ds)], inf_word()[i - ds]));
        assert(!is_ws_char(t[i]));
    } else if matches_ci(t, ds, n, infinity_word()) {
        assert(ci_eq(t[ds + (i - ds)], infinity_word()[i - ds]));
        assert(!is_ws_char(t[i]));
    } else if matches_ci(t, ds, n, nan_word()) {
        assert(ci_eq(t[ds + (i - ds)], nan_word()[i - ds]));
        assert(!is_ws_char(t[i]));
    } else {
        let e = find_exp(t, ds, n);
        crate::num::lemma_find_exp(t, ds, n);
        if i < e {
            lemma_mantissa_char(t, ds, e, i);
        } else if i == e {
            assert(t[i] == 'e' || t[i] == 'E');
        } else {
            let xs = if e + 1 < n && (t[e + 1] == '-' || t[e + 1] == '+') {
                e + 2
            } else {
                e + 1
            };
            if i < xs {
                assert(t[i] == '-' || t[i] == '+');
            } else {
                assert(is_digit_char(t[i]));
            }
        }
    }
}

proof fn lemma_mantissa_char(t: Seq<char>, lo: int, hi: int, i: int)
    requires
        0 <= lo <= hi <= t.len(),
        is_mantissa(t, lo, hi),
        lo <= i < hi,
    ensures
        !is_ws_char(t[i]),
{
    let d = find_in(t, lo, hi, '.');
    lemma_find_in(t, lo, hi, '.');
    if d == hi {
        assert(is_digit_char(t[i]));
    } else {
        if i < d {
            assert(is_digit_char(t[i]));
        } else if i == d {
            assert(t[i] == '.');
        } else {
            assert(is_digit_char(t[i]));
        }
    }
}

/// The reserved tokens are not float-shaped.
proof fn lemma_toks_not_float()
    ensures
        !is_float_text(null_tok()),
        !is_float_text(empty_tok()),
        !is_float_text(true_tok()),
        !is_float_text(false_tok()),
{
    lemma_word_not_float(null_tok());
    lemma_word_not_float(empty_tok());
    lemma_word_not_float(true_tok());
    lemma_word_not_float(false_tok());
}

/// None of the four reserved words fits the float grammar: none begins with a
/// sign, none spells an infinity or NaN word, and each contains a character
/// that is neither digit, dot, nor exponent digitry where the grammar would
/// need one.
proof fn lemma_word_not_float(w: Seq<char>)
    requires
        w == null_tok() || w == empty_tok() || w == true_tok() || w == false_tok(),
    ensures
        !is_float_text(w),
{
    let n = w.len() as int;
    assert(sign_skip(w) == 0);
    if is_float_text(w) {
        if matches_ci(w, 0, n, inf_word()) {
            assert(ci_eq(w[0], inf_word()[0]));
            assert(false);
        } else if matches_ci(w, 0, n, infinity_word()) {
            assert(false);
        } else if matches_ci(w, 0, n, nan_word()) {
            assert(ci_eq(w[0], nan_word()[0]));
            assert(ci_eq(w[1], nan_word()[1]));
            assert(false);
        } else {
            let e = find_exp(w, 0, n);
            crate::num::lemma_find_exp(w, 0, n);
            assert(is_mantissa(w, 0, e));
            let d = find_in(w, 0, e, '.');
            lemma_find_in(w, 0, e, '.');
            if w == null_tok() || w == empty_tok() {
                assert(!is_digit_char(w[0]) && w[0] != '.' && w[0] != 'e' && w[0] != 'E');
                assert(e > 0);
                assert(d > 0 ==> is_digit_char(w[0]));
                assert(d == 0 ==> w[0] == '.');
                assert(false);
            } else {
                // "true" and "false": the first character is a letter that is
                // no digit, no dot and no exponent marker
                assert(!is_digit_char(w[0]) && w[0] != '.' && w[0] != 'e' && w[0] != 'E');
                assert(e > 0);
                assert(d > 0 ==> is_digit_char(w[0]));
                assert(d == 0 ==> w[0] == '.');
                assert(false);
            }
        }
    }
}

// ---------------------------------------------------------------------------
// Coercion inverts leaf rendering
// ---------------------------------------------------------------------------

/// A scalar's rendered leaf text coerces back to the same scalar.
proof fn lemma_coerce_leaf_roundtrip(v: ValueModel)
    requires
        round_trippable(v),
        !(v is Arr),
        !(v is Obj),
    ensures
        spec_coerce(leaf_text(v), true) == v,
{
    let t = leaf_text(v);
    match v {
        ValueModel::Null => {},
        ValueModel::Bool(b) => {
            assert(true_tok().len() == 4 && false_tok().len() == 5);
            assert(null_tok().len() == 1 && empty_tok().len() == 2);
        },
        ValueModel::Str(s) => {
            if s.len() == 0 {
                assert(t == empty_tok());
                assert(empty_tok().len() == 2 && null_tok().len() == 1);
                assert(t != null_tok());
                assert(spec_coerce(t, true) == ValueModel::Str(Seq::<char>::empty()));
                assert(s =~= Seq::<char>::empty());
            }
        },
        ValueModel::Int(i) => {
            lemma_int_text_roundtrip(i);
        },
        ValueModel::Float(ft) => {
            lemma_toks_not_float();
        },
        _ => {},
    }
}

// ---------------------------------------------------------------------------
// Rendered lines tokenize back to their entries
// ---------------------------------------------------------------------------

proof fn lemma_tabs_chars(n: nat)
    ensures
        tabs(n).len() == n,
        forall|i: int| 0 <= i < n ==> tabs(n)[i] == '\t',
    decreases n,
{
    if n > 0 {
        lemma_tabs_chars((n - 1) as nat);
    }
}

/// A round-trippable scalar's leaf text is nonempty, free of tabs and line
/// breaks, and has no trailing whitespace.
proof fn lemma_leaf_text_ok(v: ValueModel)
    requires
        round_trippable(v),
        !(v is Arr),
        !(v is Obj),
    ensures
        leaf_text(v).len() > 0,
        forall|i: int|
            0 <= i < leaf_text(v).len() ==> #[trigger] leaf_text(v)[i] != '\t' && leaf_text(v)[i]
                != '\n' && leaf_text(v)[i] != '\r',
        !is_ws_char(leaf_text(v)[leaf_text(v).len() - 1]),
{
    let t = leaf_text(v);
    match v {
        ValueModel::Int(i) => {
            if i >= 0 {
                lemma_u_dec_str_digits(i);
            } else {
                lemma_u_dec_str_digits(-i);
            }
            assert(forall|k: int| 0 <= k < t.len() ==> is_digit_char(#[trigger] t[k]) || t[k] == '-');
            assert(is_digit_char(t[t.len() - 1]));
        },
        ValueModel::Float(ft) => {
            lemma_float_text_chars(ft);
        },
        _ => {},
    }
}

/// An object leaf's rendered line tokenizes back to its entry.
proof fn lemma_classify_leaf_line(k: Seq<char>, t: Seq<char>, lvl: nat)
    requires
        rt_key(k),
        t.len() > 0,
        forall|i: int| 0 <= i < t.len() ==> #[trigger] t[i] != '\t' && t[i] != '\n' && t[i] != '\r',
        !is_ws_char(t[t.len() - 1]),
    ensures
        classify_line(tabs(lvl) + k + seq!['\t'] + t) == LineClass::Token(
            EntryModel { level: lvl, key: k, value: Some(t) },
        ),
{
    let l = tabs(lvl) + k + seq!['\t'] + t;
    lemma_tabs_chars(lvl);
    let n = l.len() as int;
    let kl = k.len() as int;
    let sep = lvl + kl;
    assert(n == lvl + kl + 1 + t.len());
    assert(forall|i: int| 0 <= i < lvl ==> l[i] == '\t');
    assert(forall|j: int| 0 <= j < kl ==> l[lvl + j] == k[j]);
    assert(l[sep] == '\t');
    assert(forall|j: int| 0 <= j < t.len() ==> l[sep + 1 + j] == t[j]);

    lemma_first_non_ws(l, 0, n);
    let f = first_non_ws(l, 0, n);
    assert(l[lvl as int] == k[0]);
    assert(f == lvl) by {
        if f < lvl {
            assert(l[f] == '\t');
        }
        if f > lvl {
            assert(is_ws_char(l[lvl as int]));
        }
    }
    assert(!all_ws(l, 0, n));
    assert(!starts_hash_after_ws(l, 0, n));
    assert(l[0] != ' ') by {
        if lvl == 0 {
            assert(l[0] == k[0]);
        } else {
            assert(l[0] == '\t');
        }
    }
    lemma_run_end(l, 0, n, '\t');
    let lev = run_end(l, 0, n, '\t');
    assert(lev == lvl) by {
        if lev < lvl {
            assert(l[lev] == '\t');
        }
        if lev > lvl {
            assert(l[lvl as int] == '\t');
            assert(k[0] == '\t');
        }
    }
    assert(first_non_ws(l, lvl as int, n) == lvl);
    assert(!all_ws(l, lvl as int, n));
    lemma_find_in(l, lvl as int, n, '\t');
    let fi = find_in(l, lvl as int, n, '\t');
    assert(fi == sep) by {
        if fi < sep {
            assert(l[fi] == k[fi - lvl]);
            assert(k[fi - lvl] != '\t');
        }
        if fi > sep {
            assert(l[sep] != '\t');
        }
    }
    lemma_run_end(l, sep, n, '\t');
    let vstart = run_end(l, sep, n, '\t');
    assert(vstart == sep + 1) by {
        if vstart == sep {
            assert(l[sep] != '\t');
        }
        if vstart > sep + 1 {
            assert(l[sep + 1] == '\t');
            assert(l[sep + 1] == t[0]);
        }
    }
    assert(l[n - 1] == t[t.len() - 1]);
    assert(trim_end_at(l, sep + 1, n) == n);
    let key = l.subrange(lvl as int, sep);
    let raw = l.subrange(sep + 1, n);
    assert(key =~= k);
    assert(raw =~= t);
    lemma_find_in(raw, 0, raw.len() as int, '\t');
    assert(find_in(raw, 0, raw.len() as int, '\t') == raw.len()) by {
        let g = find_in(raw, 0, raw.len() as int, '\t');
        if g < raw.len() {
            assert(raw[g] == t[g]);
        }
    }
    assert(classify_line(l) == LineClass::Token(EntryModel { level: lvl, key: k, value: Some(t) }));
}

/// A parent opener's or array item's rendered line tokenizes back to its
/// value-less entry.
proof fn lemma_classify_bare_line(k: Seq<char>, lvl: nat)
    requires
        rt_key(k),
    ensures
        classify_line(tabs(lvl) + k) == LineClass::Token(
            EntryModel { level: lvl, key: k, value: None },
        ),
{
    let l = tabs(lvl) + k;
    lemma_tabs_chars(lvl);
    let n = l.len() as int;
    let kl = k.len() as int;
    assert(n == lvl + kl);
    assert(forall|i: int| 0 <= i < lvl ==> l[i] == '\t');
    assert(forall|j: int| 0 <= j < kl ==> l[lvl + j] == k[j]);

    lemma_first_non_ws(l, 0, n);
    let f = first_non_ws(l, 0, n);
    assert(l[lvl as int] == k[0]);
    assert(f == lvl) by {
        if f < lvl {
            assert(l[f] == '\t');
        }
        if f > lvl {
            assert(is_ws_char(l[lvl as int]));
        }
    }
    assert(!all_ws(l, 0, n));
    assert(!starts_hash_after_ws(l, 0, n));
    assert(l[0] != ' ') by {
        if lvl == 0 {
            assert(l[0] == k[0]);
        } else {
            assert(l[0] == '\t');
        }
    }
    lemma_run_end(l, 0, n, '\t');
    let lev = run_end(l, 0, n, '\t');
    assert(lev == lvl) by {
        if lev < lvl {
            assert(l[lev] == '\t');
        }
        if lev > lvl {
            assert(l[lvl as int] == '\t');
            assert(k[0] == '\t');
        }
    }
    assert(first_non_ws(l, lvl as int, n) == lvl);
    assert(!all_ws(l, lvl as int, n));
    lemma_find_in(l, lvl as int, n, '\t');
    let fi = find_in(l, lvl as int, n, '\t');
    assert(fi == n) by {
        if fi < n {
            assert(l[fi] == k[fi - lvl]);
            assert(k[fi - lvl] != '\t');
        }
    }
    assert(l[n - 1] == k[kl - 1]);
    assert(trim_end_at(l, lvl as int, n) == n);
    assert(l.subrange(lvl as int, n) =~= k);
    assert(classify_line(l) == LineClass::Token(EntryModel { level: lvl, key: k, value: None }));
}

} // verus!
