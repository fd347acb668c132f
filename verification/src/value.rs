use vstd::prelude::*;

verus! {

/// Mathematical model of a parameter value.
///
/// Floating-point payloads are carried as IEEE-754 binary64 bit patterns
/// (`u64`), so that every operation on them stays within integer reasoning;
/// the numeric interpretation is confined to `crate::fp`.
pub enum ValueView {
    NotSet,
    Bool(bool),
    I64(i64),
    F64(u64),
    Str(Seq<char>),
    BoolArray(Seq<bool>),
    I64Array(Seq<i64>),
    ByteArray(Seq<u8>),
    F64Array(Seq<u64>),
    StrArray(Seq<Seq<char>>),
}

/// The wire discriminator of a value: the single byte that tags the variant
/// in the middleware's value record.
pub open spec fn tag_of(v: ValueView) -> u8 {
    match v {
        ValueView::NotSet => 0,
        ValueView::Bool(_) => 1,
        ValueView::I64(_) => 2,
        ValueView::F64(_) => 3,
        ValueView::Str(_) => 4,
        ValueView::ByteArray(_) => 5,
        ValueView::BoolArray(_) => 6,
        ValueView::I64Array(_) => 7,
        ValueView::F64Array(_) => 8,
        ValueView::StrArray(_) => 9,
    }
}

/// The stable textual name of a value's variant.
pub open spec fn variant_name_of(v: ValueView) -> Seq<char> {
    match v {
        ValueView::NotSet => "NotSet"@,
        ValueView::Bool(_) => "Bool"@,
        ValueView::I64(_) => "I64"@,
        ValueView::F64(_) => "F64"@,
        ValueView::Str(_) => "String"@,
        ValueView::BoolArray(_) => "VecBool"@,
        ValueView::I64Array(_) => "VecI64"@,
        ValueView::ByteArray(_) => "VecU8"@,
        ValueView::F64Array(_) => "VecF64"@,
        ValueView::StrArray(_) => "VecString"@,
    }
}

/// A parameter value: unset, a scalar, or a homogeneous sequence.
///
/// The `F64` and `VecF64` variants hold IEEE-754 binary64 bit patterns.
pub enum Value {
    NotSet,
    Bool(bool),
    I64(i64),
    F64(u64),
    String(String),
    VecBool(Vec<bool>),
    VecI64(Vec<i64>),
    VecU8(Vec<u8>),
    VecF64(Vec<u64>),
    VecString(Vec<String>),
}

impl View for Value {
    type V = ValueView;

    open spec fn view(&self) -> ValueView {
        match self {
            Value::NotSet => ValueView::NotSet,
            Value::Bool(b) => ValueView::Bool(*b),
            Value::I64(x) => ValueView::I64(*x),
            Value::F64(x) => ValueView::F64(*x),
            Value::String(s) => ValueView::Str(s@),
            Value::VecBool(v) => ValueView::BoolArray(v@),
            Value::VecI64(v) => ValueView::I64Array(v@),
            Value::VecU8(v) => ValueView::ByteArray(v@),
            Value::VecF64(v) => ValueView::F64Array(v@),
            Value::VecString(v) => ValueView::StrArray(v.deep_view()),
        }
    }
}

impl Value {
    /// The wire discriminator of this value.
    pub fn type_id(&self) -> (r: u8)
        ensures
            r == tag_of(self@),
    {
        match self {
            Value::NotSet => 0,
            Value::Bool(_) => 1,
            Value::I64(_) => 2,
            Value::F64(_) => 3,
            Value::String(_) => 4,
            Value::VecU8(_) => 5,
            Value::VecBool(_) => 6,
            Value::VecI64(_) => 7,
            Value::VecF64(_) => 8,
            Value::VecString(_) => 9,
        }
    }

    /// True iff the two values have the same variant tag.
    pub fn type_check(&self, other: &Value) -> (r: bool)
        ensures
            r == (tag_of(self@) == tag_of(other@)),
    {
        self.type_id() == other.type_id()
    }

    /// The stable textual name of this value's variant.
    pub fn variant_name(&self) -> (r: &'static str)
        ensures
            r@ == variant_name_of(self@),
    {
        match self {
            Value::NotSet => "NotSet",
            Value::Bool(_) => "Bool",
            Value::I64(_) => "I64",
            Value::F64(_) => "F64",
            Value::String(_) => "String",
            Value::VecBool(_) => "VecBool",
            Value::VecI64(_) => "VecI64",
            Value::VecU8(_) => "VecU8",
            Value::VecF64(_) => "VecF64",
            Value::VecString(_) => "VecString",
        }
    }
}

} // verus!
