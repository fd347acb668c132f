use vstd::prelude::*;

use crate::value::{tag_of, Value, ValueView};

verus! {

/// Mathematical model of the wire-format value record.
pub struct WireView {
    pub type_: u8,
    pub bool_value: bool,
    pub integer_value: i64,
    pub double_value: u64,
    pub string_value: Seq<char>,
    pub byte_array_value: Seq<u8>,
    pub bool_array_value: Seq<bool>,
    pub integer_array_value: Seq<i64>,
    pub double_array_value: Seq<u64>,
    pub string_array_value: Seq<Seq<char>>,
}

/// The wire-format value record: a discriminator byte plus one payload field
/// per variant. Only the field selected by `type_` is semantically defined;
/// the others are zero or empty. Doubles travel as IEEE-754 bit patterns.
pub struct ParameterValue {
    pub type_: u8,
    pub bool_value: bool,
    pub integer_value: i64,
    pub double_value: u64,
    pub string_value: String,
    pub byte_array_value: Vec<u8>,
    pub bool_array_value: Vec<bool>,
    pub integer_array_value: Vec<i64>,
    pub double_array_value: Vec<u64>,
    pub string_array_value: Vec<String>,
}

impl View for ParameterValue {
    type V = WireView;

    open spec fn view(&self) -> WireView {
        WireView {
            type_: self.type_,
            bool_value: self.bool_value,
            integer_value: self.integer_value,
            double_value: self.double_value,
            string_value: self.string_value@,
            byte_array_value: self.byte_array_value@,
            bool_array_value: self.bool_array_value@,
            integer_array_value: self.integer_array_value@,
            double_array_value: self.double_array_value@,
            string_array_value: self.string_array_value.deep_view(),
        }
    }
}

/// The all-zero / all-empty wire record, tagged as unset.
pub open spec fn empty_wire() -> WireView {
    WireView {
        type_: 0,
        bool_value: false,
        integer_value: 0,
        double_value: 0,
        string_value: Seq::empty(),
        byte_array_value: Seq::empty(),
        bool_array_value: Seq::empty(),
        integer_array_value: Seq::empty(),
        double_array_value: Seq::empty(),
        string_array_value: Seq::empty(),
    }
}

/// Decoding a wire record: the discriminator byte selects the payload;
/// every unknown discriminator collapses to the unset value.
pub open spec fn decode_wire(w: WireView) -> ValueView {
    if w.type_ == 1 {
        ValueView::Bool(w.bool_value)
    } else if w.type_ == 2 {
        ValueView::I64(w.integer_value)
    } else if w.type_ == 3 {
        ValueView::F64(w.double_value)
    } else if w.type_ == 4 {
        ValueView::Str(w.string_value)
    } else if w.type_ == 5 {
        ValueView::ByteArray(w.byte_array_value)
    } else if w.type_ == 6 {
        ValueView::BoolArray(w.bool_array_value)
    } else if w.type_ == 7 {
        ValueView::I64Array(w.integer_array_value)
    } else if w.type_ == 8 {
        ValueView::F64Array(w.double_array_value)
    } else if w.type_ == 9 {
        ValueView::StrArray(w.string_array_value)
    } else {
        ValueView::NotSet
    }
}

/// Encoding a value: the discriminator is the variant's tag and only the
/// matching payload field is filled; the rest stays zero or empty.
pub open spec fn encode_wire(v: ValueView) -> WireView {
    let w = WireView { type_: tag_of(v), ..empty_wire() };
    match v {
        ValueView::NotSet => w,
        ValueView::Bool(b) => WireView { bool_value: b, ..w },
        ValueView::I64(x) => WireView { integer_value: x, ..w },
        ValueView::F64(x) => WireView { double_value: x, ..w },
        ValueView::Str(s) => WireView { string_value: s, ..w },
        ValueView::ByteArray(s) => WireView { byte_array_value: s, ..w },
        ValueView::BoolArray(s) => WireView { bool_array_value: s, ..w },
        ValueView::I64Array(s) => WireView { integer_array_value: s, ..w },
        ValueView::F64Array(s) => WireView { double_array_value: s, ..w },
        ValueView::StrArray(s) => WireView { string_array_value: s, ..w },
    }
}

/// Decoding inverts encoding, for every variant and payload.
pub proof fn lemma_wire_round_trip(v: ValueView)
    ensures
        decode_wire(encode_wire(v)) == v,
{
}

fn copy_bytes(v: &Vec<u8>) -> (r: Vec<u8>)
    ensures
        r@ == v@,
{
    let mut r: Vec<u8> = Vec::new();
    let mut i: usize = 0;
    while i < v.len()
        invariant
            i <= v.len(),
            r@ =~= v@.subrange(0, i as int),
        decreases v.len() - i,
    {
        r.push(v[i]);
        i += 1;
    }
    proof {
        assert(r@ =~= v@);
    }
    r
}

fn copy_bools(v: &Vec<bool>) -> (r: Vec<bool>)
    ensures
        r@ == v@,
{
    let mut r: Vec<bool> = Vec::new();
    let mut i: usize = 0;
    while i < v.len()
        invariant
            i <= v.len(),
            r@ =~= v@.subrange(0, i as int),
        decreases v.len() - i,
    {
        r.push(v[i]);
        i += 1;
    }
    proof {
        assert(r@ =~= v@);
    }
    r
}

fn copy_i64s(v: &Vec<i64>) -> (r: Vec<i64>)
    ensures
        r@ == v@,
{
    let mut r: Vec<i64> = Vec::new();
    let mut i: usize = 0;
    while i < v.len()
        invariant
            i <= v.len(),
            r@ =~= v@.subrange(0, i as int),
        decreases v.len() - i,
    {
        r.push(v[i]);
        i += 1;
    }
    proof {
        assert(r@ =~= v@);
    }
    r
}

fn copy_u64s(v: &Vec<u64>) -> (r: Vec<u64>)
    ensures
        r@ == v@,
{
    let mut r: Vec<u64> = Vec::new();
    let mut i: usize = 0;
    while i < v.len()
        invariant
            i <= v.len(),
            r@ =~= v@.subrange(0, i as int),
        decreases v.len() - i,
    {
        r.push(v[i]);
        i += 1;
    }
    proof {
        assert(r@ =~= v@);
    }
    r
}

fn copy_strings(v: &Vec<String>) -> (r: Vec<String>)
    ensures
        r.deep_view() == v.deep_view(),
{
    let mut r: Vec<String> = Vec::new();
    let mut i: usize = 0;
    while i < v.len()
        invariant
            i <= v.len(),
            r@.len() == i,
            forall|j: int| 0 <= j < i ==> r@[j]@ == v@[j]@,
        decreases v.len() - i,
    {
        r.push(v[i].clone());
        i += 1;
    }
    proof {
        assert(r.deep_view() =~= v.deep_view());
    }
    r
}

impl ParameterValue {
    /// A fresh wire record: discriminator zero, every payload zero or empty.
    pub fn new() -> (r: Self)
        ensures
            r@ == empty_wire(),
    {
        let r = ParameterValue {
            type_: 0,
            bool_value: false,
            integer_value: 0,
            double_value: 0,
            string_value: String::new(),
            byte_array_value: Vec::new(),
            bool_array_value: Vec::new(),
            integer_array_value: Vec::new(),
            double_array_value: Vec::new(),
            string_array_value: Vec::new(),
        };
        proof {
            assert(r@.string_array_value =~= Seq::<Seq<char>>::empty());
            assert(r@ =~= empty_wire());
        }
        r
    }

    /// Encodes a value into a wire record; sequences are copied out.
    pub fn from_value(v: &Value) -> (r: Self)
        ensures
            r@ == encode_wire(v@),
    {
        let mut r = ParameterValue::new();
        r.type_ = v.type_id();
        match v {
            Value::NotSet => {},
            Value::Bool(b) => {
                r.bool_value = *b;
            },
            Value::I64(x) => {
                r.integer_value = *x;
            },
            Value::F64(x) => {
                r.double_value = *x;
            },
            Value::String(s) => {
                r.string_value = s.clone();
            },
            Value::VecU8(s) => {
                r.byte_array_value = copy_bytes(s);
            },
            Value::VecBool(s) => {
                r.bool_array_value = copy_bools(s);
            },
            Value::VecI64(s) => {
                r.integer_array_value = copy_i64s(s);
            },
            Value::VecF64(s) => {
                r.double_array_value = copy_u64s(s);
            },
            Value::VecString(s) => {
                r.string_array_value = copy_strings(s);
            },
        }
        r
    }
}

impl Value {
    /// Decodes a wire record by its discriminator byte; sequences are copied
    /// into owned storage. Unknown discriminators collapse to `NotSet`.
    pub fn from_wire(w: &ParameterValue) -> (v: Value)
        ensures
            v@ == decode_wire(w@),
    {
        if w.type_ == 1 {
            Value::Bool(w.bool_value)
        } else if w.type_ == 2 {
            Value::I64(w.integer_value)
        } else if w.type_ == 3 {
            Value::F64(w.double_value)
        } else if w.type_ == 4 {
            Value::String(w.string_value.clone())
        } else if w.type_ == 5 {
            Value::VecU8(copy_bytes(&w.byte_array_value))
        } else if w.type_ == 6 {
            Value::VecBool(copy_bools(&w.bool_array_value))
        } else if w.type_ == 7 {
            Value::VecI64(copy_i64s(&w.integer_array_value))
        } else if w.type_ == 8 {
            Value::VecF64(copy_u64s(&w.double_array_value))
        } else if w.type_ == 9 {
            Value::VecString(copy_strings(&w.string_array_value))
        } else {
            Value::NotSet
        }
    }
}

/// The nullable fields of the legacy variant record, each already read into
/// an owned option by the caller.
pub struct LegacyVariant {
    pub bool_value: Option<bool>,
    pub integer_value: Option<i64>,
    pub double_value: Option<u64>,
    pub string_value: Option<String>,
    pub bool_array_value: Option<Vec<bool>>,
    pub integer_array_value: Option<Vec<i64>>,
    pub byte_array_value: Option<Vec<u8>>,
    pub double_array_value: Option<Vec<u64>>,
    pub string_array_value: Option<Vec<String>>,
}

/// Decoding a legacy variant record: the fields are examined in priority
/// order and the first one present wins; absent all, the value is unset.
pub open spec fn decode_legacy(f: LegacyVariant) -> ValueView {
    if f.bool_value is Some {
        ValueView::Bool(f.bool_value->0)
    } else if f.integer_value is Some {
        ValueView::I64(f.integer_value->0)
    } else if f.double_value is Some {
        ValueView::F64(f.double_value->0)
    } else if f.string_value is Some {
        ValueView::Str(f.string_value->0@)
    } else if f.bool_array_value is Some {
        ValueView::BoolArray(f.bool_array_value->0@)
    } else if f.integer_array_value is Some {
        ValueView::I64Array(f.integer_array_value->0@)
    } else if f.byte_array_value is Some {
        ValueView::ByteArray(f.byte_array_value->0@)
    } else if f.double_array_value is Some {
        ValueView::F64Array(f.double_array_value->0@)
    } else if f.string_array_value is Some {
        ValueView::StrArray((f.string_array_value->0).deep_view())
    } else {
        ValueView::NotSet
    }
}

impl Value {
    /// Decodes the legacy variant record, taking the payload of the first
    /// field present in priority order.
    pub fn from_legacy(f: LegacyVariant) -> (v: Value)
        ensures
            v@ == decode_legacy(f),
    {
        if let Some(b) = f.bool_value {
            Value::Bool(b)
        } else if let Some(x) = f.integer_value {
            Value::I64(x)
        } else if let Some(x) = f.double_value {
            Value::F64(x)
        } else if let Some(s) = f.string_value {
            Value::String(s)
        } else if let Some(s) = f.bool_array_value {
            Value::VecBool(s)
        } else if let Some(s) = f.integer_array_value {
            Value::VecI64(s)
        } else if let Some(s) = f.byte_array_value {
            Value::VecU8(s)
        } else if let Some(s) = f.double_array_value {
            Value::VecF64(s)
        } else if let Some(s) = f.string_array_value {
            Value::VecString(s)
        } else {
            Value::NotSet
        }
    }
}

} // verus!
