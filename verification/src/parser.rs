//! TAML parser: tokenizes lines into (level, key, value) entries, then
//! rebuilds the value tree, deciding between nested objects and arrays with
//! a lookahead over each sibling block.
//!
//! The specification functions in this module are the reference description
//! of the algorithm; every executable function is proved to compute exactly
//! what they say.

use vstd::prelude::*;
use crate::error::TAMLError;
use crate::error::TAMLResult;
use crate::num::is_i64_text;
use crate::num::spec_int_val;
use crate::num::is_float_text;
use crate::num::parse_i64_chars;
use crate::num::is_float_chars;
use crate::text::all_ws;
use crate::text::chars_to_string;
use crate::text::find_char;
use crate::text::find_in;
use crate::text::run_end;
use crate::text::scan_first_non_ws;
use crate::text::scan_run_end;
use crate::text::scan_trim_end;
use crate::text::spec_lines;
use crate::text::split_lines;
use crate::text::starts_hash_after_ws;
use crate::text::str_to_chars;
use crate::text::subrange_chars;
use crate::text::trim_end_at;
use crate::value::obj_insert;
use crate::value::obj_view;
use crate::value::key_idx;
use crate::value::string_eq_str;
use crate::value::vals_view;
use crate::value::Value;
use crate::value::ValueModel;

verus! {

/// Options for parsing TAML.
#[derive(Debug, Clone, Copy)]
pub struct ParseOptions {
    /// Enable strict parsing that raises errors on invalid TAML
    pub strict: bool,
    /// Automatically convert strings to native types (int, float, bool)
    pub type_conversion: bool,
}

impl Default for ParseOptions {
    fn default() -> (r: Self)
        ensures
            r.strict == false,
            r.type_conversion == true,
    {
        ParseOptions { strict: false, type_conversion: true }
    }
}

/// One accepted line: its indentation level, its key, and its raw value
/// (absent on parent-opener and array-item lines).
pub struct EntryModel {
    pub level: nat,
    pub key: Seq<char>,
    pub value: Option<Seq<char>>,
}

/// What the tokenizer makes of a single line.
pub enum LineClass {
    /// Empty, whitespace-only, or comment: skipped silently in every mode.
    Blank,
    /// Leading space: an error in strict mode, skipped when lenient.
    SpaceIndent,
    /// Empty key after extraction: an error in strict mode, skipped when lenient.
    NoKey,
    /// The extracted value holds a tab: an error in strict mode, skipped when lenient.
    TabbedValue,
    /// An accepted entry.
    Token(EntryModel),
}

/// Tokenization of one line, exactly as the parser treats it:
/// comments and blank lines are dropped, a leading space is invalid
/// indentation, leading tabs give the level, and the first tab run inside
/// the content separates the key from the trailing-trimmed value.
pub open spec fn classify_line(l: Seq<char>) -> LineClass {
    let n = l.len() as int;
    if all_ws(l, 0, n) || starts_hash_after_ws(l, 0, n) {
        LineClass::Blank
    } else if l[0] == ' ' {
        LineClass::SpaceIndent
    } else {
        let level = run_end(l, 0, n, '\t');
        if all_ws(l, level, n) {
            LineClass::Blank
        } else {
            let t = find_in(l, level, n, '\t');
            if t < n {
                let vstart = run_end(l, t, n, '\t');
                let key = l.subrange(level, t);
                let raw = l.subrange(vstart, trim_end_at(l, vstart, n));
                if key.len() == 0 {
                    LineClass::NoKey
                } else if find_in(raw, 0, raw.len() as int, '\t') < raw.len() {
                    LineClass::TabbedValue
                } else {
                    LineClass::Token(EntryModel { level: level as nat, key, value: Some(raw) })
                }
            } else {
                let key = l.subrange(level, trim_end_at(l, level, n));
                if key.len() == 0 {
                    LineClass::NoKey
                } else {
                    LineClass::Token(EntryModel { level: level as nat, key, value: None })
                }
            }
        }
    }
}

/// The entries of the accepted lines, in source order (lenient mode: every
/// other line is dropped).
pub open spec fn entries_from(lines: Seq<Seq<char>>, i: int) -> Seq<EntryModel>
    decreases lines.len() - i,
{
    if i < 0 || i >= lines.len() {
        Seq::empty()
    } else {
        match classify_line(lines[i]) {
            LineClass::Token(e) => seq![e] + entries_from(lines, i + 1),
            _ => entries_from(lines, i + 1),
        }
    }
}

pub open spec fn msg_space_indent() -> Seq<char> {
    "Indentation must use tabs, not spaces"@
}

pub open spec fn msg_no_key() -> Seq<char> {
    "Line has no key"@
}

pub open spec fn msg_tab_value() -> Seq<char> {
    "Value contains invalid tab character"@
}

/// The first structural violation at or after line index `i`, as strict mode
/// sees it: the 1-based line number and the error message.
pub open spec fn first_violation_from(lines: Seq<Seq<char>>, i: int) -> Option<(int, Seq<char>)>
    decreases lines.len() - i,
{
    if i < 0 || i >= lines.len() {
        None
    } else {
        match classify_line(lines[i]) {
            LineClass::SpaceIndent => Some((i + 1, msg_space_indent())),
            LineClass::NoKey => Some((i + 1, msg_no_key())),
            LineClass::TabbedValue => Some((i + 1, msg_tab_value())),
            _ => first_violation_from(lines, i + 1),
        }
    }
}

/// The first structural violation in `text`, if any: what `parse_strict`
/// fails with.
pub open spec fn spec_first_violation(text: Seq<char>) -> Option<(int, Seq<char>)> {
    first_violation_from(spec_lines(text), 0)
}

pub open spec fn null_tok() -> Seq<char> {
    seq!['~']
}

pub open spec fn empty_tok() -> Seq<char> {
    seq!['"', '"']
}

pub open spec fn true_tok() -> Seq<char> {
    seq!['t', 'r', 'u', 'e']
}

pub open spec fn false_tok() -> Seq<char> {
    seq!['f', 'a', 'l', 's', 'e']
}

/// Leaf coercion, first match wins: the null and empty-string sentinels are
/// always recognised; with type conversion on, booleans, then in-range
/// integers, then float-shaped text; anything else stays a string.
pub open spec fn spec_coerce(raw: Seq<char>, conv: bool) -> ValueModel {
    if raw == null_tok() {
        ValueModel::Null
    } else if raw == empty_tok() {
        ValueModel::Str(Seq::empty())
    } else if !conv {
        ValueModel::Str(raw)
    } else if raw == true_tok() {
        ValueModel::Bool(true)
    } else if raw == false_tok() {
        ValueModel::Bool(false)
    } else if is_i64_text(raw) {
        ValueModel::Int(spec_int_val(raw))
    } else if is_float_text(raw) {
        ValueModel::Float(raw)
    } else {
        ValueModel::Str(raw)
    }
}

/// End of the descendant block that starts at `i`: the first index in
/// `[i, end)` whose level is at most `lvl`, or `end`.
pub open spec fn block_end(es: Seq<EntryModel>, i: int, end: int, lvl: nat) -> int
    decreases end - i,
{
    if i < 0 || i >= end || end > es.len() {
        i
    } else if es[i].level > lvl {
        block_end(es, i + 1, end, lvl)
    } else {
        i
    }
}

pub proof fn lemma_block_end(es: Seq<EntryModel>, i: int, end: int, lvl: nat)
    requires
        0 <= i <= end <= es.len(),
    ensures
        i <= block_end(es, i, end, lvl) <= end,
        block_end(es, i, end, lvl) < end ==> es[block_end(es, i, end, lvl)].level <= lvl,
        forall|k: int| i <= k < block_end(es, i, end, lvl) ==> es[k].level > lvl,
    decreases end - i,
{
    if i < end && es[i].level > lvl {
        lemma_block_end(es, i + 1, end, lvl);
    }
}

/// Some direct child (an entry at exactly `cl` in `[lo, hi)`) carries a value.
pub open spec fn has_child_value(es: Seq<EntryModel>, lo: int, hi: int, cl: nat) -> bool {
    exists|c: int|
        lo <= c < hi && (#[trigger] es[c]).level == cl && es[c].value is Some
}

/// Some direct child is followed by a deeper entry, i.e. has descendants of
/// its own. The lookahead reads the entry after the child, as the scan does.
pub open spec fn has_grandchild(es: Seq<EntryModel>, lo: int, hi: int, end: int, cl: nat) -> bool {
    exists|c: int|
        lo <= c < hi && (#[trigger] es[c]).level == cl && c + 1 < end && es[c + 1].level > cl
}

/// The block has at least one direct child.
pub open spec fn has_child(es: Seq<EntryModel>, lo: int, hi: int, cl: nat) -> bool {
    exists|c: int| lo <= c < hi && (#[trigger] es[c]).level == cl
}

/// The array heuristic: a sibling block becomes an array exactly when no
/// direct child carries a value, none has descendants, and there is at least
/// one direct child.
pub open spec fn is_array_block(es: Seq<EntryModel>, lo: int, hi: int, end: int, cl: nat) -> bool {
    &&& !has_child_value(es, lo, hi, cl)
    &&& !has_grandchild(es, lo, hi, end, cl)
    &&& has_child(es, lo, hi, cl)
}

/// The array built from a block: each direct child's key, as a string.
pub open spec fn arr_items(es: Seq<EntryModel>, lo: int, hi: int, cl: nat) -> Seq<ValueModel>
    decreases hi - lo,
{
    if lo < 0 || lo >= hi || hi > es.len() {
        Seq::empty()
    } else if es[lo].level == cl {
        seq![ValueModel::Str(es[lo].key)] + arr_items(es, lo + 1, hi, cl)
    } else {
        arr_items(es, lo + 1, hi, cl)
    }
}

pub proof fn lemma_arr_items_snoc(es: Seq<EntryModel>, lo: int, hi: int, cl: nat)
    requires
        0 <= lo < hi <= es.len(),
    ensures
        arr_items(es, lo, hi, cl) == arr_items(es, lo, hi - 1, cl) + (if es[hi - 1].level == cl {
            seq![ValueModel::Str(es[hi - 1].key)]
        } else {
            Seq::<ValueModel>::empty()
        }),
    decreases hi - lo,
{
    if es[lo].level == cl {
        assert(arr_items(es, lo, hi, cl) == seq![ValueModel::Str(es[lo].key)] + arr_items(
            es,
            lo + 1,
            hi,
            cl,
        ));
        assert(arr_items(es, lo, hi - 1, cl) == if lo < hi - 1 {
            seq![ValueModel::Str(es[lo].key)] + arr_items(es, lo + 1, hi - 1, cl)
        } else {
            Seq::<ValueModel>::empty()
        });
    } else {
        assert(arr_items(es, lo, hi, cl) == arr_items(es, lo + 1, hi, cl));
        assert(arr_items(es, lo, hi - 1, cl) == if lo < hi - 1 {
            arr_items(es, lo + 1, hi - 1, cl)
        } else {
            Seq::<ValueModel>::empty()
        });
    }
    if lo < hi - 1 {
        lemma_arr_items_snoc(es, lo + 1, hi, cl);
        assert(arr_items(es, lo, hi, cl) =~= arr_items(es, lo, hi - 1, cl) + (if es[hi - 1].level
            == cl {
            seq![ValueModel::Str(es[hi - 1].key)]
        } else {
            Seq::<ValueModel>::empty()
        }));
    } else {
        assert(arr_items(es, lo + 1, hi, cl) =~= Seq::<ValueModel>::empty());
        assert(arr_items(es, lo, hi, cl) =~= arr_items(es, lo, hi - 1, cl) + (if es[hi - 1].level
            == cl {
            seq![ValueModel::Str(es[hi - 1].key)]
        } else {
            Seq::<ValueModel>::empty()
        }));
    }
}

/// Tree reconstruction over the entry range `[i, end)` at expected level
/// `lvl`, on top of the accumulated object `acc`. Scanning forward: deeper
/// entries are skipped, a shallower entry stops the scan, a valued entry at
/// the level becomes a coerced leaf, and a value-less entry opens a
/// descendant block that becomes an array or a nested object.
pub open spec fn build_obj(
    es: Seq<EntryModel>,
    i: int,
    end: int,
    lvl: nat,
    conv: bool,
    acc: Seq<(Seq<char>, ValueModel)>,
) -> Seq<(Seq<char>, ValueModel)>
    decreases end - i
    via build_obj_dec
{
    if i < 0 || i >= end || end > es.len() {
        acc
    } else if es[i].level < lvl {
        acc
    } else if es[i].level > lvl {
        build_obj(es, i + 1, end, lvl, conv, acc)
    } else if es[i].value is Some {
        build_obj(
            es,
            i + 1,
            end,
            lvl,
            conv,
            obj_insert(acc, es[i].key, spec_coerce(es[i].value->0, conv)),
        )
    } else {
        let j = block_end(es, i + 1, end, lvl);
        let child = if is_array_block(es, i + 1, j, end, (lvl + 1) as nat) {
            ValueModel::Arr(arr_items(es, i + 1, j, (lvl + 1) as nat))
        } else {
            ValueModel::Obj(build_obj(es, i + 1, j, (lvl + 1) as nat, conv, Seq::empty()))
        };
        build_obj(es, j, end, lvl, conv, obj_insert(acc, es[i].key, child))
    }
}

#[via_fn]
proof fn build_obj_dec(
    es: Seq<EntryModel>,
    i: int,
    end: int,
    lvl: nat,
    conv: bool,
    acc: Seq<(Seq<char>, ValueModel)>,
) {
    if 0 <= i && i < end && end <= es.len() {
        lemma_block_end(es, i + 1, end, lvl);
    }
}

/// What `parse` yields on `text` (lenient mode): always an object.
pub open spec fn spec_parse_model(text: Seq<char>, conv: bool) -> ValueModel {
    let es = entries_from(spec_lines(text), 0);
    ValueModel::Obj(build_obj(es, 0, es.len() as int, 0, conv, Seq::empty()))
}

// ---------------------------------------------------------------------------
// Executable tokenizer
// ---------------------------------------------------------------------------

struct Entry {
    level: usize,
    key: Vec<char>,
    raw_value: Option<Vec<char>>,
}

impl View for Entry {
    type V = EntryModel;

    closed spec fn view(&self) -> EntryModel {
        EntryModel {
            level: self.level as nat,
            key: self.key@,
            value: match self.raw_value {
                Some(v) => Some(v@),
                None => None,
            },
        }
    }
}

/// Views of a sequence of entries.
spec fn entries_view(es: Seq<Entry>) -> Seq<EntryModel> {
    Seq::new(
        es.len(),
        |i: int|
            if 0 <= i < es.len() {
                es[i]@
            } else {
                EntryModel { level: 0, key: Seq::empty(), value: None }
            },
    )
}

enum LineScan {
    Blank,
    SpaceIndent,
    NoKey,
    TabbedValue,
    Token(Entry),
}

impl View for LineScan {
    type V = LineClass;

    closed spec fn view(&self) -> LineClass {
        match self {
            LineScan::Blank => LineClass::Blank,
            LineScan::SpaceIndent => LineClass::SpaceIndent,
            LineScan::NoKey => LineClass::NoKey,
            LineScan::TabbedValue => LineClass::TabbedValue,
            LineScan::Token(e) => LineClass::Token(e@),
        }
    }
}

/// Tokenizes one line, as `classify_line` describes.
fn scan_line(line: &Vec<char>) -> (r: LineScan)
    ensures
        r@ == classify_line(line@),
        r@ matches LineClass::Token(e) ==> e.level < usize::MAX as nat,
{
    let n = line.len();
    let fnw = scan_first_non_ws(line, 0, n);
    if fnw == n {
        return LineScan::Blank;
    }
    if line[fnw] == '#' {
        return LineScan::Blank;
    }
    if line[0] == ' ' {
        return LineScan::SpaceIndent;
    }
    let level = scan_run_end(line, 0, n, '\t');
    let cnw = scan_first_non_ws(line, level, n);
    if cnw == n {
        return LineScan::Blank;
    }
    let t = find_char(line, level, n, '\t');
    if t < n {
        let vstart = scan_run_end(line, t, n, '\t');
        let key = subrange_chars(line, level, t);
        let te = scan_trim_end(line, vstart, n);
        let raw = subrange_chars(line, vstart, te);
        if key.len() == 0 {
            return LineScan::NoKey;
        }
        let rt = find_char(&raw, 0, raw.len(), '\t');
        if rt < raw.len() {
            return LineScan::TabbedValue;
        }
        LineScan::Token(Entry { level, key, raw_value: Some(raw) })
    } else {
        let te = scan_trim_end(line, level, n);
        let key = subrange_chars(line, level, te);
        if key.len() == 0 {
            return LineScan::NoKey;
        }
        LineScan::Token(Entry { level, key, raw_value: None })
    }
}

/// First tokenizer pass over all lines. In strict mode the first violating
/// line aborts with its line number; in lenient mode violating lines are
/// dropped.
fn tokenize(lines: &Vec<Vec<char>>, strict: bool) -> (r: Result<Vec<Entry>, TAMLError>)
    ensures
        match r {
            Ok(es) => {
                &&& entries_view(es@) == entries_from(lines.deep_view(), 0)
                &&& (strict ==> first_violation_from(lines.deep_view(), 0) is None)
                &&& forall|k: int|
                    0 <= k < es@.len() ==> (#[trigger] entries_view(es@)[k]).level < usize::MAX
                        as nat
            },
            Err(e) => {
                &&& strict
                &&& first_violation_from(lines.deep_view(), 0) matches Some(v) && e.line == Some(
                    v.0 as usize,
                ) && e.message@ == v.1
            },
        },
{
    let ghost lm = lines.deep_view();
    let n = lines.len();
    let mut es: Vec<Entry> = Vec::new();
    let mut i: usize = 0;
    proof {
        assert(entries_view(es@) =~= Seq::<EntryModel>::empty());
    }
    while i < n
        invariant
            i <= n,
            n == lm.len(),
            lm == lines.deep_view(),
            entries_from(lm, 0) == entries_view(es@) + entries_from(lm, i as int),
            strict ==> first_violation_from(lm, 0) == first_violation_from(lm, i as int),
            forall|k: int|
                0 <= k < es@.len() ==> (#[trigger] entries_view(es@)[k]).level < usize::MAX as nat,
        decreases n - i,
    {
        proof {
            assert(lm[i as int] =~= lines@[i as int]@);
        }
        let scan = scan_line(&lines[i]);
        match scan {
            LineScan::Token(e) => {
                let ghost old_es = es@;
                es.push(e);
                proof {
                    assert(entries_view(es@) =~= entries_view(old_es) + seq![e@]);
                    assert(entries_view(es@) + entries_from(lm, i + 1) =~= entries_view(old_es)
                        + entries_from(lm, i as int));
                }
            },
            LineScan::Blank => {},
            LineScan::SpaceIndent => {
                if strict {
                    return Err(TAMLError::with_line("Indentation must use tabs, not spaces", i + 1));
                }
            },
            LineScan::NoKey => {
                if strict {
                    return Err(TAMLError::with_line("Line has no key", i + 1));
                }
            },
            LineScan::TabbedValue => {
                if strict {
                    return Err(TAMLError::with_line("Value contains invalid tab character", i + 1));
                }
            },
        }
        i = i + 1;
    }
    proof {
        assert(entries_from(lm, 0) =~= entries_view(es@));
    }
    Ok(es)
}

// ---------------------------------------------------------------------------
// Executable coercion and tree building
// ---------------------------------------------------------------------------

/// Element-wise equality of two character vectors.
fn chars_equal(a: &Vec<char>, b: &Vec<char>) -> (r: bool)
    ensures
        r == (a@ == b@),
{
    if a.len() != b.len() {
        return false;
    }
    let mut i: usize = 0;
    while i < a.len()
        invariant
            i <= a@.len(),
            a@.len() == b@.len(),
            forall|k: int| 0 <= k < i ==> a@[k] == b@[k],
        decreases a@.len() - i,
    {
        if a[i] != b[i] {
            return false;
        }
        i = i + 1;
    }
    proof {
        assert(a@ =~= b@);
    }
    true
}

/// Convert a raw value's text to a typed leaf, as `spec_coerce` describes.
fn convert_value(raw: &Vec<char>, type_conversion: bool) -> (v: Value)
    ensures
        v@ == spec_coerce(raw@, type_conversion),
{
    proof {
        assert(raw@.subrange(0, raw@.len() as int) =~= raw@);
    }
    let mut nul: Vec<char> = Vec::new();
    nul.push('~');
    proof {
        assert(nul@ =~= null_tok());
    }
    if chars_equal(raw, &nul) {
        return Value::Null;
    }
    let mut emp: Vec<char> = Vec::new();
    emp.push('"');
    emp.push('"');
    proof {
        assert(emp@ =~= empty_tok());
    }
    if chars_equal(raw, &emp) {
        let s = String::new();
        return Value::String(s);
    }
    if !type_conversion {
        return Value::String(chars_to_string(raw, 0, raw.len()));
    }
    let mut tru: Vec<char> = Vec::new();
    tru.push('t');
    tru.push('r');
    tru.push('u');
    tru.push('e');
    proof {
        assert(tru@ =~= true_tok());
    }
    if chars_equal(raw, &tru) {
        return Value::Boolean(true);
    }
    let mut fal: Vec<char> = Vec::new();
    fal.push('f');
    fal.push('a');
    fal.push('l');
    fal.push('s');
    fal.push('e');
    proof {
        assert(fal@ =~= false_tok());
    }
    if chars_equal(raw, &fal) {
        return Value::Boolean(false);
    }
    match parse_i64_chars(raw) {
        Some(i) => {
            return Value::Integer(i);
        },
        None => {},
    }
    if is_float_chars(raw) {
        return Value::Float(chars_to_string(raw, 0, raw.len()));
    }
    Value::String(chars_to_string(raw, 0, raw.len()))
}

/// Insert with last-write-wins overwrite, as `obj_insert` describes.
fn obj_set(obj: &mut Vec<(String, Value)>, key: String, val: Value)
    ensures
        obj_view(final(obj)@) == obj_insert(obj_view(old(obj)@), key@, val@),
{
    let ghost es = obj_view(old(obj)@);
    let n = obj.len();
    let mut i: usize = 0;
    while i < n
        invariant
            i <= n,
            n == obj@.len(),
            obj@ == old(obj)@,
            es == obj_view(obj@),
            key_idx(es, key@, 0) == key_idx(es, key@, i as int),
        decreases n - i,
    {
        if string_eq_str(&obj[i].0, key.as_str()) {
            proof {
                assert(es[i as int].0 == key@);
            }
            let ghost before = obj@;
            obj.remove(i);
            obj.insert(i, (key, val));
            proof {
                assert(obj@ =~= before.update(i as int, obj@[i as int]));
                assert(obj_view(obj@) =~~= obj_insert(es, obj@[i as int].0@, obj@[i as int].1@));
            }
            return;
        }
        i = i + 1;
    }
    let ghost before = obj@;
    obj.push((key, val));
    proof {
        assert(key_idx(es, key@, n as int) == es.len());
        assert(obj_view(obj@) =~~= obj_insert(es, obj@[n as int].0@, obj@[n as int].1@));
    }
}

fn scan_block_end(entries: &Vec<Entry>, i: usize, end: usize, lvl: usize) -> (r: usize)
    requires
        i <= end <= entries@.len(),
    ensures
        r == block_end(entries_view(entries@), i as int, end as int, lvl as nat),
        i <= r <= end,
{
    let ghost ev = entries_view(entries@);
    let mut j: usize = i;
    while j < end && entries[j].level > lvl
        invariant
            i <= j <= end <= entries@.len(),
            ev == entries_view(entries@),
            block_end(ev, i as int, end as int, lvl as nat) == block_end(
                ev,
                j as int,
                end as int,
                lvl as nat,
            ),
        decreases end - j,
    {
        j = j + 1;
    }
    j
}

/// One scan over a descendant block, computing the three facts the array
/// heuristic needs about the direct children.
fn scan_children(entries: &Vec<Entry>, lo: usize, hi: usize, end: usize, cl: usize) -> (r: (
    bool,
    bool,
    bool,
))
    requires
        lo <= hi <= end <= entries@.len(),
    ensures
        r.0 == has_child_value(entries_view(entries@), lo as int, hi as int, cl as nat),
        r.1 == has_grandchild(entries_view(entries@), lo as int, hi as int, end as int, cl as nat),
        r.2 == has_child(entries_view(entries@), lo as int, hi as int, cl as nat),
{
    let ghost ev = entries_view(entries@);
    let mut hv = false;
    let mut hg = false;
    let mut hc = false;
    let mut c: usize = lo;
    while c < hi
        invariant
            lo <= c <= hi <= end <= entries@.len(),
            ev == entries_view(entries@),
            hv == has_child_value(ev, lo as int, c as int, cl as nat),
            hg == has_grandchild(ev, lo as int, c as int, end as int, cl as nat),
            hc == has_child(ev, lo as int, c as int, cl as nat),
        decreases hi - c,
    {
        if entries[c].level == cl {
            hc = true;
            if entries[c].raw_value.is_some() {
                hv = true;
            }
            if c + 1 < end && entries[c + 1].level > cl {
                hg = true;
            }
        }
        proof {
            assert(ev[c as int] == entries@[c as int]@);
            if c + 1 < end {
                assert(ev[c + 1] == entries@[c + 1]@);
            }
            assert(hv == has_child_value(ev, lo as int, c + 1, cl as nat));
            assert(hg == has_grandchild(ev, lo as int, c + 1, end as int, cl as nat));
            assert(hc == has_child(ev, lo as int, c + 1, cl as nat));
        }
        c = c + 1;
    }
    (hv, hg, hc)
}

/// Collect the array items of a block: each direct child's key as a string.
fn collect_array_items(entries: &Vec<Entry>, lo: usize, hi: usize, cl: usize) -> (items: Vec<
    Value,
>)
    requires
        lo <= hi <= entries@.len(),
    ensures
        vals_view(items@) == arr_items(entries_view(entries@), lo as int, hi as int, cl as nat),
{
    let ghost ev = entries_view(entries@);
    let mut items: Vec<Value> = Vec::new();
    proof {
        assert(vals_view(items@) =~= arr_items(ev, lo as int, lo as int, cl as nat));
    }
    let mut c: usize = lo;
    while c < hi
        invariant
            lo <= c <= hi <= entries@.len(),
            ev == entries_view(entries@),
            vals_view(items@) == arr_items(ev, lo as int, c as int, cl as nat),
        decreases hi - c,
    {
        let ghost before = items@;
        if entries[c].level == cl {
            let key = chars_to_string(&entries[c].key, 0, entries[c].key.len());
            proof {
                assert(entries@[c as int].key@.subrange(
                    0,
                    entries@[c as int].key@.len() as int,
                ) =~= entries@[c as int].key@);
            }
            items.push(Value::String(key));
        }
        proof {
            lemma_arr_items_snoc(ev, lo as int, c + 1, cl as nat);
            assert(ev[c as int] == entries@[c as int]@);
            assert(vals_view(items@) =~= arr_items(ev, lo as int, c + 1, cl as nat));
        }
        c = c + 1;
    }
    items
}

/// Rebuild the object for the entry range `[start, end)` at `expected_level`,
/// as `build_obj` describes.
fn build_tree(entries: &Vec<Entry>, start: usize, end: usize, expected_level: usize, conv: bool) -> (obj: Vec<(String, Value)>)
    requires
        start <= end <= entries@.len(),
        forall|k: int|
            0 <= k < entries@.len() ==> (#[trigger] entries_view(entries@)[k]).level < usize::MAX
                as nat,
    ensures
        obj_view(obj@) == build_obj(
            entries_view(entries@),
            start as int,
            end as int,
            expected_level as nat,
            conv,
            Seq::empty(),
        ),
    decreases end - start,
{
    let ghost ev = entries_view(entries@);
    let mut obj: Vec<(String, Value)> = Vec::new();
    proof {
        assert(obj_view(obj@) =~= Seq::<(Seq<char>, ValueModel)>::empty());
    }
    let mut i: usize = start;
    loop
        invariant
            start <= i <= end <= entries@.len(),
            ev == entries_view(entries@),
            forall|k: int| 0 <= k < ev.len() ==> (#[trigger] ev[k]).level < usize::MAX as nat,
            build_obj(ev, start as int, end as int, expected_level as nat, conv, Seq::empty())
                == build_obj(ev, i as int, end as int, expected_level as nat, conv, obj_view(obj@)),
        ensures
            build_obj(ev, start as int, end as int, expected_level as nat, conv, Seq::empty())
                == obj_view(obj@),
        decreases end - i,
    {
        if i >= end {
            break;
        }
        proof {
            assert(ev[i as int] == entries@[i as int]@);
        }
        let e_level = entries[i].level;
        if e_level < expected_level {
            break;
        }
        if e_level > expected_level {
            i = i + 1;
            continue;
        }
        let has_value = entries[i].raw_value.is_some();
        if has_value {
            let val = match &entries[i].raw_value {
                Some(raw) => convert_value(raw, conv),
                None => Value::Null,
            };
            let key = chars_to_string(&entries[i].key, 0, entries[i].key.len());
            proof {
                assert(entries@[i as int].key@.subrange(
                    0,
                    entries@[i as int].key@.len() as int,
                ) =~= entries@[i as int].key@);
            }
            obj_set(&mut obj, key, val);
            i = i + 1;
        } else {
            let j = scan_block_end(entries, i + 1, end, expected_level);
            let cl = expected_level + 1;
            let r = scan_children(entries, i + 1, j, end, cl);
            let child = if !r.0 && !r.1 && r.2 {
                Value::Array(collect_array_items(entries, i + 1, j, cl))
            } else {
                Value::Object(build_tree(entries, i + 1, j, cl, conv))
            };
            let key = chars_to_string(&entries[i].key, 0, entries[i].key.len());
            proof {
                assert(entries@[i as int].key@.subrange(
                    0,
                    entries@[i as int].key@.len() as int,
                ) =~= entries@[i as int].key@);
            }
            obj_set(&mut obj, key, child);
            i = j;
        }
    }
    obj
}

// ---------------------------------------------------------------------------
// Public parse entry points
// ---------------------------------------------------------------------------

/// Parse a TAML string into a Value (lenient mode: malformed lines are
/// silently dropped, and the result is always an object).
pub fn parse(text: &str) -> (r: TAMLResult<Value>)
    ensures
        r matches Ok(v) && v@ == spec_parse_model(text@, true),
{
    parse_with_options(text, ParseOptions::default())
}

/// Parse a TAML string with strict validation: the first structural
/// violation aborts with its 1-based line number.
pub fn parse_strict(text: &str) -> (r: TAMLResult<Value>)
    ensures
        spec_first_violation(text@) is None <==> r is Ok,
        r matches Ok(v) ==> v@ == spec_parse_model(text@, true),
        spec_first_violation(text@) is Some ==> (r matches Err(e) && e.line == Some(
            (spec_first_violation(text@)->0).0 as usize,
        ) && e.message@ == (spec_first_violation(text@)->0).1),
{
    parse_with_options(text, ParseOptions { strict: true, type_conversion: true })
}

/// Parse a TAML string with custom options.
pub fn parse_with_options(text: &str, options: ParseOptions) -> (r: TAMLResult<Value>)
    ensures
        r is Err <==> options.strict && spec_first_violation(text@) is Some,
        r matches Ok(v) ==> v@ == spec_parse_model(text@, options.type_conversion),
        (options.strict && spec_first_violation(text@) is Some) ==> (r matches Err(e) && e.line
            == Some((spec_first_violation(text@)->0).0 as usize) && e.message@
            == (spec_first_violation(text@)->0).1),
{
    let chars = str_to_chars(text);
    let lines = split_lines(&chars);
    let entries = match tokenize(&lines, options.strict) {
        Ok(es) => es,
        Err(e) => {
            proof {
                lemma_first_violation_line(spec_lines(text@), 0);
            }
            return Err(e);
        },
    };
    let obj = build_tree(&entries, 0, entries.len(), 0, options.type_conversion);
    Ok(Value::Object(obj))
}

/// A reported violation's line number is a valid 1-based line index.
pub proof fn lemma_first_violation_line(lines: Seq<Seq<char>>, i: int)
    requires
        0 <= i,
    ensures
        first_violation_from(lines, i) matches Some(v) ==> i < v.0 <= lines.len(),
    decreases lines.len() - i,
{
    if i < lines.len() {
        lemma_first_violation_line(lines, i + 1);
    }
}

} // verus!
