//! The TAML value tree and its mathematical model.
//!
//! A [`Value`] is a closed tagged union over seven variants. Contracts speak
//! about values through their view, a [`ValueModel`], in which strings are
//! character sequences and objects are association sequences. Float leaves
//! carry their source text: the format's grammar decides what counts as a
//! float, and keeping the text makes serialization the exact inverse of
//! parsing without any floating-point arithmetic.

use vstd::prelude::*;

verus! {

/// Mathematical model of a TAML value.
pub enum ValueModel {
    Str(Seq<char>),
    Int(int),
    Float(Seq<char>),
    Bool(bool),
    Null,
    Arr(Seq<ValueModel>),
    Obj(Seq<(Seq<char>, ValueModel)>),
}

/// Represents a TAML value.
#[derive(Debug, PartialEq)]
pub enum Value {
    /// String value
    String(String),
    /// Float value, kept as the decimal text it was written as
    Float(String),
    /// Integer value
    Integer(i64),
    /// Boolean value
    Boolean(bool),
    /// Null value (represented as ~ in TAML)
    Null,
    /// Array of values
    Array(Vec<Value>),
    /// Object (key-value pairs, keys unique, in insertion order)
    Object(Vec<(String, Value)>),
}

impl View for Value {
    type V = ValueModel;

    open spec fn view(&self) -> ValueModel
        decreases self,
    {
        match self {
            Value::String(s) => ValueModel::Str(s@),
            Value::Float(t) => ValueModel::Float(t@),
            Value::Integer(i) => ValueModel::Int(*i as int),
            Value::Boolean(b) => ValueModel::Bool(*b),
            Value::Null => ValueModel::Null,
            Value::Array(items) => ValueModel::Arr(vals_view(items@)),
            Value::Object(entries) => ValueModel::Obj(obj_view(entries@)),
        }
    }
}

/// View of an array's element vector as a sequence of models.
pub open spec fn vals_view(items: Seq<Value>) -> Seq<ValueModel>
    decreases items,
{
    Seq::new(
        items.len(),
        |i: int|
            if 0 <= i < items.len() {
                items[i]@
            } else {
                ValueModel::Null
            },
    )
}

/// View of an object's entry vector as an association sequence.
pub open spec fn obj_view(entries: Seq<(String, Value)>) -> Seq<(Seq<char>, ValueModel)>
    decreases entries,
{
    Seq::new(
        entries.len(),
        |i: int|
            if 0 <= i < entries.len() {
                (entries[i].0@, entries[i].1@)
            } else {
                (Seq::empty(), ValueModel::Null)
            },
    )
}

/// First index in `es` bearing key `k`; `es.len()` if the key is absent.
pub open spec fn key_idx(es: Seq<(Seq<char>, ValueModel)>, k: Seq<char>, i: int) -> int
    decreases es.len() - i,
{
    if i < 0 || i >= es.len() {
        es.len() as int
    } else if es[i].0 == k {
        i
    } else {
        key_idx(es, k, i + 1)
    }
}

pub open spec fn obj_has_key(es: Seq<(Seq<char>, ValueModel)>, k: Seq<char>) -> bool {
    key_idx(es, k, 0) < es.len()
}

/// Insertion with last-write-wins overwrite: an existing key keeps its
/// position and takes the new value; a new key is appended.
pub open spec fn obj_insert(
    es: Seq<(Seq<char>, ValueModel)>,
    k: Seq<char>,
    v: ValueModel,
) -> Seq<(Seq<char>, ValueModel)> {
    if obj_has_key(es, k) {
        es.update(key_idx(es, k, 0), (k, v))
    } else {
        es.push((k, v))
    }
}

/// The value bound to `k`, if any.
pub open spec fn obj_get(es: Seq<(Seq<char>, ValueModel)>, k: Seq<char>) -> Option<ValueModel> {
    if obj_has_key(es, k) {
        Some(es[key_idx(es, k, 0)].1)
    } else {
        None
    }
}

impl Value {
    /// Returns true if the value is a string
    pub fn is_string(&self) -> (r: bool)
        ensures
            r == (self@ is Str),
    {
        matches!(self, Value::String(_))
    }

    /// Returns true if the value is an integer
    pub fn is_integer(&self) -> (r: bool)
        ensures
            r == (self@ is Int),
    {
        matches!(self, Value::Integer(_))
    }

    /// Returns true if the value is a float
    pub fn is_float(&self) -> (r: bool)
        ensures
            r == (self@ is Float),
    {
        matches!(self, Value::Float(_))
    }

    /// Returns true if the value is a boolean
    pub fn is_boolean(&self) -> (r: bool)
        ensures
            r == (self@ is Bool),
    {
        matches!(self, Value::Boolean(_))
    }

    /// Returns true if the value is null
    pub fn is_null(&self) -> (r: bool)
        ensures
            r == (self@ is Null),
    {
        matches!(self, Value::Null)
    }

    /// Returns true if the value is an array
    pub fn is_array(&self) -> (r: bool)
        ensures
            r == (self@ is Arr),
    {
        matches!(self, Value::Array(_))
    }

    /// Returns true if the value is an object
    pub fn is_object(&self) -> (r: bool)
        ensures
            r == (self@ is Obj),
    {
        matches!(self, Value::Object(_))
    }

    /// Get as string if the value is a string
    pub fn as_string(&self) -> (r: Option<&String>)
        ensures
            r is Some <==> self@ is Str,
            r matches Some(s) ==> self@ == ValueModel::Str(s@),
    {
        match self {
            Value::String(s) => Some(s),
            _ => None,
        }
    }

    /// Get as integer if the value is an integer
    pub fn as_integer(&self) -> (r: Option<i64>)
        ensures
            r is Some <==> self@ is Int,
            r matches Some(i) ==> self@ == ValueModel::Int(i as int),
    {
        match self {
            Value::Integer(i) => Some(*i),
            _ => None,
        }
    }

    /// Get the float's decimal text if the value is a float
    pub fn as_float(&self) -> (r: Option<&String>)
        ensures
            r is Some <==> self@ is Float,
            r matches Some(t) ==> self@ == ValueModel::Float(t@),
    {
        match self {
            Value::Float(t) => Some(t),
            _ => None,
        }
    }

    /// Get as boolean if the value is a boolean
    pub fn as_boolean(&self) -> (r: Option<bool>)
        ensures
            r is Some <==> self@ is Bool,
            r matches Some(b) ==> self@ == ValueModel::Bool(b),
    {
        match self {
            Value::Boolean(b) => Some(*b),
            _ => None,
        }
    }

    /// Get as array if the value is an array
    pub fn as_array(&self) -> (r: Option<&Vec<Value>>)
        ensures
            r is Some <==> self@ is Arr,
            r matches Some(items) ==> *self == Value::Array(*items) && self@->Arr_0.len()
                == items@.len(),
    {
        match self {
            Value::Array(items) => Some(items),
            _ => None,
        }
    }

    /// Get as object if the value is an object
    pub fn as_object(&self) -> (r: Option<&Vec<(String, Value)>>)
        ensures
            r is Some <==> self@ is Obj,
            r matches Some(entries) ==> *self == Value::Object(*entries) && self@
                == ValueModel::Obj(obj_view(entries@)),
    {
        match self {
            Value::Object(entries) => Some(entries),
            _ => None,
        }
    }

    /// Look up a key in an object value; `None` on other variants or when the
    /// key is absent.
    pub fn get(&self, key: &str) -> (r: Option<&Value>)
        ensures
            match r {
                Some(v) => self@ is Obj && obj_get(self@->Obj_0, key@) == Some(v@),
                None => self@ is Obj ==> obj_get(self@->Obj_0, key@) is None,
            },
    {
        match self {
            Value::Object(entries) => {
                let ghost es = obj_view(entries@);
                let n = entries.len();
                let mut i: usize = 0;
                while i < n
                    invariant
                        i <= n,
                        n == entries@.len(),
                        es == obj_view(entries@),
                        key_idx(es, key@, 0) == key_idx(es, key@, i as int),
                        self@ == ValueModel::Obj(es),
                    decreases n - i,
                {
                    if string_eq_str(&entries[i].0, key) {
                        return Some(&entries[i].1);
                    }
                    i = i + 1;
                }
                None
            },
            _ => None,
        }
    }
}

/// Character-by-character equality of a `String` and a `&str`.
pub fn string_eq_str(a: &String, b: &str) -> (r: bool)
    ensures
        r == (a@ == b@),
{
    let an = crate::text::str_to_chars(a.as_str());
    let bn = crate::text::str_to_chars(b);
    if an.len() != bn.len() {
        return false;
    }
    let mut i: usize = 0;
    while i < an.len()
        invariant
            i <= an@.len(),
            an@.len() == bn@.len(),
            an@ == a@,
            bn@ == b@,
            forall|k: int| 0 <= k < i ==> an@[k] == bn@[k],
        decreases an@.len() - i,
    {
        if an[i] != bn[i] {
            return false;
        }
        i = i + 1;
    }
    proof {
        assert(a@ =~= b@);
    }
    true
}

} // verus!
