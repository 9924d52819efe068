//! TAML serializer: renders a value tree back to tab-indented text, the
//! structural inverse of parsing. Objects emit one line per key; arrays emit
//! one key-only line per element, with nested containers flattened in place.

use vstd::prelude::*;
use vstd::string::StrSliceExecFns;
use vstd::string::StringExecFns;
use crate::num::int_text;
use crate::num::i64_to_chars;
use crate::parser::null_tok;
use crate::parser::empty_tok;
use crate::parser::true_tok;
use crate::parser::false_tok;
use crate::text::chars_to_string;
use crate::text::str_to_chars;
use crate::value::obj_view;
use crate::value::Value;
use crate::value::ValueModel;

verus! {

/// `n` tab characters.
pub open spec fn tabs(n: nat) -> Seq<char>
    decreases n,
{
    if n == 0 {
        Seq::empty()
    } else {
        tabs((n - 1) as nat) + seq!['\t']
    }
}

/// The leaf rendering of a scalar: the sentinels for null and the empty
/// string, canonical decimal text for integers, the kept source text for
/// floats, `true`/`false` for booleans, the text itself for other strings.
/// Containers render as no text (they never appear as leaves).
pub open spec fn leaf_text(v: ValueModel) -> Seq<char> {
    match v {
        ValueModel::Null => null_tok(),
        ValueModel::Str(s) => if s.len() == 0 {
            empty_tok()
        } else {
            s
        },
        ValueModel::Int(i) => int_text(i),
        ValueModel::Float(t) => t,
        ValueModel::Bool(b) => if b {
            true_tok()
        } else {
            false_tok()
        },
        ValueModel::Arr(_) => Seq::empty(),
        ValueModel::Obj(_) => Seq::empty(),
    }
}

/// Structural depth of a value: how many levels of nesting serialization may
/// add below it. Bounds the exec indentation arithmetic.
pub open spec fn vdepth(v: ValueModel) -> nat
    decreases v,
{
    match v {
        ValueModel::Obj(es) => 1 + obj_depth(es, 0),
        ValueModel::Arr(items) => 1 + arr_depth(items, 0),
        _ => 0,
    }
}

pub open spec fn obj_depth(es: Seq<(Seq<char>, ValueModel)>, i: int) -> nat
    decreases es, es.len() - i,
{
    if i < 0 || i >= es.len() {
        0
    } else {
        let d = vdepth(es[i].1);
        let rest = obj_depth(es, i + 1);
        if d >= rest {
            d
        } else {
            rest
        }
    }
}

pub open spec fn arr_depth(items: Seq<ValueModel>, i: int) -> nat
    decreases items, items.len() - i,
{
    if i < 0 || i >= items.len() {
        0
    } else {
        let d = vdepth(items[i]);
        let rest = arr_depth(items, i + 1);
        if d >= rest {
            d
        } else {
            rest
        }
    }
}

pub proof fn lemma_obj_depth_at(es: Seq<(Seq<char>, ValueModel)>, i: int, k: int)
    requires
        0 <= i <= k < es.len(),
    ensures
        obj_depth(es, i) >= vdepth(es[k].1),
    decreases k - i,
{
    if i < k {
        lemma_obj_depth_at(es, i + 1, k);
    }
}

pub proof fn lemma_arr_depth_at(items: Seq<ValueModel>, i: int, k: int)
    requires
        0 <= i <= k < items.len(),
    ensures
        arr_depth(items, i) >= vdepth(items[k]),
    decreases k - i,
{
    if i < k {
        lemma_arr_depth_at(items, i + 1, k);
    }
}

/// The lines an object's entries emit from index `i` on, at indentation
/// `lvl`: a `key<TAB>leaf` line per scalar, or a bare `key` line followed by
/// the nested container's lines one level deeper.
pub open spec fn ser_obj_lines(es: Seq<(Seq<char>, ValueModel)>, i: int, lvl: nat) -> Seq<
    Seq<char>,
>
    decreases es, es.len() - i,
{
    if i < 0 || i >= es.len() {
        Seq::empty()
    } else {
        let k = es[i].0;
        let head = match es[i].1 {
            ValueModel::Obj(nested) => seq![tabs(lvl) + k] + ser_obj_lines(nested, 0, lvl + 1),
            ValueModel::Arr(items) => seq![tabs(lvl) + k] + ser_arr_lines(items, 0, lvl + 1),
            _ => seq![tabs(lvl) + k + seq!['\t'] + leaf_text(es[i].1)],
        };
        head + ser_obj_lines(es, i + 1, lvl)
    }
}

/// The lines an array's elements emit from index `i` on: a key-only line per
/// scalar, nested containers rendered in place at the same level.
pub open spec fn ser_arr_lines(items: Seq<ValueModel>, i: int, lvl: nat) -> Seq<Seq<char>>
    decreases items, items.len() - i,
{
    if i < 0 || i >= items.len() {
        Seq::empty()
    } else {
        let head = match items[i] {
            ValueModel::Obj(nested) => ser_obj_lines(nested, 0, lvl),
            ValueModel::Arr(nested) => ser_arr_lines(nested, 0, lvl),
            _ => seq![tabs(lvl) + leaf_text(items[i])],
        };
        head + ser_arr_lines(items, i + 1, lvl)
    }
}

/// The lines a value emits at indentation `lvl`; a scalar at the root is its
/// bare leaf text.
pub open spec fn ser_value_lines(v: ValueModel, lvl: nat) -> Seq<Seq<char>> {
    match v {
        ValueModel::Obj(es) => ser_obj_lines(es, 0, lvl),
        ValueModel::Arr(items) => ser_arr_lines(items, 0, lvl),
        _ => seq![leaf_text(v)],
    }
}

/// The lines joined with `\n`, no trailing newline.
pub open spec fn join_lines(lines: Seq<Seq<char>>, i: int) -> Seq<char>
    decreases lines.len() - i,
{
    if i < 0 || i >= lines.len() {
        Seq::empty()
    } else if i == lines.len() - 1 {
        lines[i]
    } else {
        lines[i] + seq!['\n'] + join_lines(lines, i + 1)
    }
}

/// What `stringify_with_options` yields for a value at a base indentation.
pub open spec fn spec_stringify(v: ValueModel, lvl: nat) -> Seq<char> {
    join_lines(ser_value_lines(v, lvl), 0)
}

/// Options for serializing TAML.
#[derive(Debug, Clone, Copy)]
pub struct SerializeOptions {
    /// Starting indentation level
    pub indent_level: usize,
}

impl Default for SerializeOptions {
    fn default() -> (r: Self)
        ensures
            r.indent_level == 0,
    {
        SerializeOptions { indent_level: 0 }
    }
}

/// Views of a line vector.
pub open spec fn strs_view(lines: Seq<String>) -> Seq<Seq<char>> {
    Seq::new(
        lines.len(),
        |i: int|
            if 0 <= i < lines.len() {
                lines[i]@
            } else {
                Seq::empty()
            },
    )
}

fn make_indent(level: usize) -> (v: Vec<char>)
    ensures
        v@ == tabs(level as nat),
{
    let mut v: Vec<char> = Vec::new();
    proof {
        assert(v@ =~= tabs(0));
    }
    let mut i: usize = 0;
    while i < level
        invariant
            i <= level,
            v@ == tabs(i as nat),
        decreases level - i,
    {
        v.push('\t');
        proof {
            assert(v@ =~= tabs((i + 1) as nat));
        }
        i = i + 1;
    }
    v
}

/// Renders a scalar as its leaf text.
fn value_to_string(value: &Value) -> (s: String)
    ensures
        s@ == leaf_text(value@),
{
    match value {
        Value::Null => {
            let s: String = "~".to_owned();
            proof {
                reveal_strlit("~");
                assert(s@ =~= null_tok());
            }
            s
        },
        Value::String(t) => {
            if t.as_str().is_empty() {
                let s: String = "\"\"".to_owned();
                proof {
                    reveal_strlit("\"\"");
                    assert(s@ =~= empty_tok());
                }
                s
            } else {
                t.clone()
            }
        },
        Value::Integer(i) => {
            let digits = i64_to_chars(*i);
            let s = chars_to_string(&digits, 0, digits.len());
            proof {
                assert(digits@.subrange(0, digits@.len() as int) =~= digits@);
            }
            s
        },
        Value::Float(t) => t.clone(),
        Value::Boolean(b) => {
            if *b {
                let s: String = "true".to_owned();
                proof {
                    reveal_strlit("true");
                    assert(s@ =~= true_tok());
                }
                s
            } else {
                let s: String = "false".to_owned();
                proof {
                    reveal_strlit("false");
                    assert(s@ =~= false_tok());
                }
                s
            }
        },
        Value::Array(_) => String::new(),
        Value::Object(_) => String::new(),
    }
}

fn serialize_object(obj: &Vec<(String, Value)>, lines: &mut Vec<String>, level: usize)
    requires
        level as nat + 1 + obj_depth(obj_view(obj@), 0) <= usize::MAX as nat,
    ensures
        strs_view(final(lines)@) == strs_view(old(lines)@) + ser_obj_lines(
            obj_view(obj@),
            0,
            level as nat,
        ),
    decreases obj,
{
    let ghost es = obj_view(obj@);
    let ghost base = strs_view(old(lines)@);
    let indent = make_indent(level);
    let n = obj.len();
    let mut i: usize = 0;
    proof {
        assert(strs_view(lines@) + ser_obj_lines(es, 0, level as nat) =~= base + ser_obj_lines(
            es,
            0,
            level as nat,
        ));
    }
    while i < n
        invariant
            i <= n,
            n == obj@.len(),
            es == obj_view(obj@),
            indent@ == tabs(level as nat),
            level as nat + 1 + obj_depth(es, 0) <= usize::MAX as nat,
            base + ser_obj_lines(es, 0, level as nat) == strs_view(lines@) + ser_obj_lines(
                es,
                i as int,
                level as nat,
            ),
        decreases n - i,
    {
        proof {
            assert(es[i as int] == (obj@[i as int].0@, obj@[i as int].1@));
            lemma_obj_depth_at(es, 0, i as int);
        }
        let ghost before = strs_view(lines@);
        let key_chars = str_to_chars(obj[i].0.as_str());
        let mut line: Vec<char> = indent.clone();
        proof {
            assert(line@ == tabs(level as nat));
        }
        let mut kc = key_chars;
        line.append(&mut kc);
        match &obj[i].1 {
            Value::Object(nested) => {
                lines.push(chars_to_string(&line, 0, line.len()));
                proof {
                    assert(line@.subrange(0, line@.len() as int) =~= line@);
                    assert(strs_view(lines@) =~= before + seq![tabs(level as nat)
                        + es[i as int].0]);
                }
                serialize_object(nested, lines, level + 1);
                proof {
                    assert(strs_view(lines@) =~= before + (seq![tabs(level as nat)
                        + es[i as int].0] + ser_obj_lines(
                        obj_view(nested@),
                        0,
                        (level + 1) as nat,
                    )));
                }
            },
            Value::Array(items) => {
                lines.push(chars_to_string(&line, 0, line.len()));
                proof {
                    assert(line@.subrange(0, line@.len() as int) =~= line@);
                    assert(strs_view(lines@) =~= before + seq![tabs(level as nat)
                        + es[i as int].0]);
                }
                serialize_array(items, lines, level + 1);
                proof {
                    assert(strs_view(lines@) =~= before + (seq![tabs(level as nat)
                        + es[i as int].0] + ser_arr_lines(
                        crate::value::vals_view(items@),
                        0,
                        (level + 1) as nat,
                    )));
                }
            },
            other => {
                let val_str = value_to_string(other);
                line.push('\t');
                let mut vc = str_to_chars(val_str.as_str());
                line.append(&mut vc);
                lines.push(chars_to_string(&line, 0, line.len()));
                proof {
                    assert(line@.subrange(0, line@.len() as int) =~= line@);
                    assert(line@ =~= tabs(level as nat) + es[i as int].0 + seq!['\t'] + leaf_text(
                        es[i as int].1,
                    ));
                    assert(strs_view(lines@) =~= before + seq![tabs(level as nat) + es[i as int].0
                        + seq!['\t'] + leaf_text(es[i as int].1)]);
                }
            },
        }
        proof {
            assert(base + ser_obj_lines(es, 0, level as nat) =~~= strs_view(lines@)
                + ser_obj_lines(es, i + 1, level as nat));
        }
        i = i + 1;
    }
    proof {
        assert(ser_obj_lines(es, n as int, level as nat) =~= Seq::<Seq<char>>::empty());
        assert(strs_view(lines@) =~~= base + ser_obj_lines(es, 0, level as nat));
    }
}

fn serialize_array(arr: &Vec<Value>, lines: &mut Vec<String>, level: usize)
    requires
        level as nat + 1 + arr_depth(crate::value::vals_view(arr@), 0) <= usize::MAX as nat,
    ensures
        strs_view(final(lines)@) == strs_view(old(lines)@) + ser_arr_lines(
            crate::value::vals_view(arr@),
            0,
            level as nat,
        ),
    decreases arr,
{
    let ghost items = crate::value::vals_view(arr@);
    let ghost base = strs_view(old(lines)@);
    let indent = make_indent(level);
    let n = arr.len();
    let mut i: usize = 0;
    proof {
        assert(strs_view(lines@) + ser_arr_lines(items, 0, level as nat) =~= base + ser_arr_lines(
            items,
            0,
            level as nat,
        ));
    }
    while i < n
        invariant
            i <= n,
            n == arr@.len(),
            items == crate::value::vals_view(arr@),
            indent@ == tabs(level as nat),
            level as nat + 1 + arr_depth(items, 0) <= usize::MAX as nat,
            base + ser_arr_lines(items, 0, level as nat) == strs_view(lines@) + ser_arr_lines(
                items,
                i as int,
                level as nat,
            ),
        decreases n - i,
    {
        proof {
            assert(items[i as int] == arr@[i as int]@);
            lemma_arr_depth_at(items, 0, i as int);
        }
        let ghost before = strs_view(lines@);
        match &arr[i] {
            Value::Object(nested) => {
                serialize_object(nested, lines, level);
                proof {
                    assert(strs_view(lines@) =~= before + ser_obj_lines(
                        obj_view(nested@),
                        0,
                        level as nat,
                    ));
                }
            },
            Value::Array(nested) => {
                serialize_array(nested, lines, level);
                proof {
                    assert(strs_view(lines@) =~= before + ser_arr_lines(
                        crate::value::vals_view(nested@),
                        0,
                        level as nat,
                    ));
                }
            },
            other => {
                let val_str = value_to_string(other);
                let mut line: Vec<char> = indent.clone();
                let mut vc = str_to_chars(val_str.as_str());
                line.append(&mut vc);
                lines.push(chars_to_string(&line, 0, line.len()));
                proof {
                    assert(line@.subrange(0, line@.len() as int) =~= line@);
                    assert(line@ =~= tabs(level as nat) + leaf_text(items[i as int]));
                    assert(strs_view(lines@) =~= before + seq![tabs(level as nat) + leaf_text(
                        items[i as int],
                    )]);
                }
            },
        }
        proof {
            assert(base + ser_arr_lines(items, 0, level as nat) =~~= strs_view(lines@)
                + ser_arr_lines(items, i + 1, level as nat));
        }
        i = i + 1;
    }
    proof {
        assert(ser_arr_lines(items, n as int, level as nat) =~= Seq::<Seq<char>>::empty());
        assert(strs_view(lines@) =~~= base + ser_arr_lines(items, 0, level as nat));
    }
}

fn serialize_value(value: &Value, lines: &mut Vec<String>, level: usize)
    requires
        level as nat + vdepth(value@) <= usize::MAX as nat,
    ensures
        strs_view(final(lines)@) == strs_view(old(lines)@) + ser_value_lines(
            value@,
            level as nat,
        ),
{
    let ghost base = strs_view(old(lines)@);
    match value {
        Value::Object(obj) => {
            serialize_object(obj, lines, level);
        },
        Value::Array(arr) => {
            serialize_array(arr, lines, level);
        },
        other => {
            let s = value_to_string(other);
            lines.push(s);
            proof {
                assert(strs_view(lines@) =~~= base + ser_value_lines(value@, level as nat));
            }
        },
    }
}

fn join_newline(lines: &Vec<String>) -> (s: String)
    ensures
        s@ == join_lines(strs_view(lines@), 0),
{
    let ghost sv = strs_view(lines@);
    let n = lines.len();
    let mut s = String::new();
    let mut i: usize = 0;
    while i < n
        invariant
            i <= n,
            n == sv.len(),
            sv == strs_view(lines@),
            i == 0 ==> s@ == Seq::<char>::empty(),
            0 < i < n ==> join_lines(sv, 0) == s@ + seq!['\n'] + join_lines(sv, i as int),
            i == n && n > 0 ==> s@ == join_lines(sv, 0),
        decreases n - i,
    {
        proof {
            assert(sv[i as int] == lines@[i as int]@);
        }
        if i > 0 {
            s.push('\n');
        }
        s.append(lines[i].as_str());
        proof {
            if i + 1 < n {
                assert(join_lines(sv, i as int) == sv[i as int] + seq!['\n'] + join_lines(
                    sv,
                    i + 1,
                ));
                if i == 0 {
                    assert(join_lines(sv, 0) =~= s@ + seq!['\n'] + join_lines(sv, i + 1));
                } else {
                    assert(join_lines(sv, 0) =~= s@ + seq!['\n'] + join_lines(sv, i + 1));
                }
            } else {
                assert(join_lines(sv, i as int) == sv[i as int]);
                if i == 0 {
                    assert(s@ =~= join_lines(sv, 0));
                } else {
                    assert(s@ =~= join_lines(sv, 0));
                }
            }
        }
        i = i + 1;
    }
    proof {
        if n == 0 {
            assert(s@ =~= join_lines(sv, 0));
        }
    }
    s
}

/// Serialize a Value to TAML format.
pub fn stringify(value: &Value) -> (r: String)
    requires
        vdepth(value@) <= usize::MAX as nat,
    ensures
        r@ == spec_stringify(value@, 0),
{
    stringify_with_options(value, SerializeOptions::default())
}

/// Serialize a Value to TAML format with custom options.
pub fn stringify_with_options(value: &Value, options: SerializeOptions) -> (r: String)
    requires
        options.indent_level as nat + vdepth(value@) <= usize::MAX as nat,
    ensures
        r@ == spec_stringify(value@, options.indent_level as nat),
{
    let mut lines: Vec<String> = Vec::new();
    proof {
        assert(strs_view(lines@) =~= Seq::<Seq<char>>::empty());
    }
    serialize_value(value, &mut lines, options.indent_level);
    proof {
        assert(strs_view(lines@) =~= ser_value_lines(value@, options.indent_level as nat));
    }
    join_newline(&lines)
}

} // verus!
