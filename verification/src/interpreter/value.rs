//! The run-time values of the interpreter.
use vstd::prelude::*;
use crate::text::string_from_str;

verus! {

/// A run-time value.
///
/// Arrays and variables live in the interpreter's stores: `Array` and
/// `VarRef` carry a handle into them, so that copies of such a value share
/// one array or one variable (writes through one copy are seen by all).
#[derive(Debug, Clone, PartialEq, Eq)]
pub enum Value {
    Number(i64),
    Bool(bool),
    String(String),
    /// A handle into the interpreter's array store.
    Array(usize),
    /// A reference to a variable: its slot handle and its name.  Naming a
    /// variable (`X は 変数`) pushes this; 「読」 resolves it to the value.
    VarRef(usize, String),
}

/// Plain-value model of [`Value`].
pub enum SVal {
    Number(i64),
    Bool(bool),
    Str(Seq<char>),
    Array(nat),
    VarRef(nat, Seq<char>),
}

impl View for Value {
    type V = SVal;

    open spec fn view(&self) -> SVal {
        match self {
            Value::Number(n) => SVal::Number(*n),
            Value::Bool(b) => SVal::Bool(*b),
            Value::String(s) => SVal::Str(s@),
            Value::Array(h) => SVal::Array(*h as nat),
            Value::VarRef(h, name) => SVal::VarRef(*h as nat, name@),
        }
    }
}

/// The models of a sequence of values.
pub open spec fn vals(v: Seq<Value>) -> Seq<SVal> {
    v.map_values(|x: Value| x@)
}

/// The type name used in error messages.
pub open spec fn spec_type_label(v: SVal) -> Seq<char> {
    match v {
        SVal::Number(_) => "数"@,
        SVal::Bool(_) => "真偽値"@,
        SVal::Str(_) => "文字列"@,
        SVal::Array(_) => "配列"@,
        SVal::VarRef(_, _) => "変数参照"@,
    }
}

impl Value {
    /// The type name used in error messages.
    pub fn type_label(&self) -> (r: &'static str)
        ensures
            r@ == spec_type_label(self@),
    {
        match self {
            Value::Number(_) => "数",
            Value::Bool(_) => "真偽値",
            Value::String(_) => "文字列",
            Value::Array(_) => "配列",
            Value::VarRef(_, _) => "変数参照",
        }
    }

    /// A copy of this value; a copied array or variable names the same
    /// store entry as this one.
    pub fn copied(&self) -> (r: Value)
        ensures
            r@ == self@,
    {
        match self {
            Value::Number(n) => Value::Number(*n),
            Value::Bool(b) => Value::Bool(*b),
            Value::String(s) => Value::String(string_from_str(s.as_str())),
            Value::Array(h) => Value::Array(*h),
            Value::VarRef(h, name) => Value::VarRef(*h, string_from_str(name.as_str())),
        }
    }
}

} // verus!
