use vstd::prelude::*;

verus! {

/// Line and column (both 1-based) of a parsed value's first character in the
/// configuration text. Values built programmatically carry no span.
#[derive(Debug, Clone, Copy, PartialEq, Eq, Structural)]
pub struct SourceSpan {
    pub line: usize,
    pub column: usize,
}

/// The semantic type of a configuration value, as it is named in
/// type-mismatch diagnostics.
#[derive(Debug, Clone, Copy, PartialEq, Eq, Structural)]
pub enum Kind {
    Str,
    Integer,
    Float,
    Boolean,
    Array,
    Table,
}

/// One key/value pair of a section or of a resolved configuration.
#[derive(Debug, PartialEq)]
pub struct Entry {
    pub key: String,
    pub value: Value,
}

/// A configuration value: a tagged union over strings, integers, floats,
/// booleans, arrays and tables, each instance carrying an optional source
/// span.
///
/// A `Float` holds the text of its literal. The resolution engine never
/// interprets numeric values, it only compares tags, so keeping the literal
/// loses nothing and rules out any silent narrowing; a caller that wants the
/// number converts the literal itself.
#[derive(Debug, PartialEq)]
pub enum Value {
    Str(String, Option<SourceSpan>),
    Integer(i64, Option<SourceSpan>),
    Float(String, Option<SourceSpan>),
    Boolean(bool, Option<SourceSpan>),
    Array(Vec<Value>, Option<SourceSpan>),
    Table(Vec<Entry>, Option<SourceSpan>),
}

impl Value {
    pub open spec fn spec_kind(self) -> Kind {
        match self {
            Value::Str(..) => Kind::Str,
            Value::Integer(..) => Kind::Integer,
            Value::Float(..) => Kind::Float,
            Value::Boolean(..) => Kind::Boolean,
            Value::Array(..) => Kind::Array,
            Value::Table(..) => Kind::Table,
        }
    }

    /// The tag of this value.
    pub fn kind(&self) -> (k: Kind)
        ensures
            k == self.spec_kind(),
    {
        match self {
            Value::Str(..) => Kind::Str,
            Value::Integer(..) => Kind::Integer,
            Value::Float(..) => Kind::Float,
            Value::Boolean(..) => Kind::Boolean,
            Value::Array(..) => Kind::Array,
            Value::Table(..) => Kind::Table,
        }
    }

    pub open spec fn spec_span(self) -> Option<SourceSpan> {
        match self {
            Value::Str(_, sp) => sp,
            Value::Integer(_, sp) => sp,
            Value::Float(_, sp) => sp,
            Value::Boolean(_, sp) => sp,
            Value::Array(_, sp) => sp,
            Value::Table(_, sp) => sp,
        }
    }

    /// The source span of this value, if it came from parsed text.
    pub fn span(&self) -> (sp: Option<SourceSpan>)
        ensures
            sp == self.spec_span(),
    {
        match self {
            Value::Str(_, sp) => *sp,
            Value::Integer(_, sp) => *sp,
            Value::Float(_, sp) => *sp,
            Value::Boolean(_, sp) => *sp,
            Value::Array(_, sp) => *sp,
            Value::Table(_, sp) => *sp,
        }
    }

    /// Every value reachable from this one carries a source span.
    pub open spec fn all_spanned(self) -> bool
        decreases self,
    {
        &&& self.spec_span() is Some
        &&& match self {
            Value::Array(vs, _) => forall|i: int|
                0 <= i < vs@.len() ==> (#[trigger] vs@[i]).all_spanned(),
            Value::Table(es, _) => forall|i: int|
                0 <= i < es@.len() ==> (#[trigger] es@[i]).value.all_spanned(),
            _ => true,
        }
    }
}

pub open spec fn spec_kind_name(k: Kind) -> Seq<char> {
    match k {
        Kind::Str => "String"@,
        Kind::Integer => "Integer"@,
        Kind::Float => "Float"@,
        Kind::Boolean => "Boolean"@,
        Kind::Array => "Array"@,
        Kind::Table => "Table"@,
    }
}

/// The display name of a semantic type, as it appears in diagnostics.
pub fn kind_name(k: Kind) -> (r: &'static str)
    ensures
        r@ == spec_kind_name(k),
{
    match k {
        Kind::Str => "String",
        Kind::Integer => "Integer",
        Kind::Float => "Float",
        Kind::Boolean => "Boolean",
        Kind::Array => "Array",
        Kind::Table => "Table",
    }
}

} // verus!
