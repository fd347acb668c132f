use vstd::prelude::*;

use crate::range::{fp_range_contains, int_range_contains, FloatingPointRange, IntegerRange};
use crate::value::{tag_of, Value, ValueView};
use crate::{lemma_bytes_lt_irreflexive, lemma_bytes_lt_transitive, name_compare,
    name_lt, NameCmp};
use vstd::std_specs::vec::vec_index_mut;

verus! {

/// The error kinds a store mutation distinguishes.
#[derive(Clone, Copy, PartialEq, Eq, Structural, Debug)]
pub enum ParamError {
    /// `NotSet` was used through the statically typed interface.
    InvalidValue,
    /// The statically typed interface touched a dynamically typed parameter,
    /// or the other way round.
    TypingModeMismatch,
    /// A write touched a read-only parameter.
    ReadOnly,
    /// The value lies outside an attached range or off its stride.
    RangeViolation,
    /// A statically typed parameter was assigned a differently-tagged value.
    TypeMismatch,
    /// A range was attached to a parameter of an incompatible type, or with
    /// a zero integer stride.
    InvalidRangeAttachment,
    /// The named parameter does not exist.
    UnknownParameter,
}

/// Mathematical model of a parameter's metadata.
pub struct DescriptorView {
    pub description: Seq<char>,
    pub additional_constraints: Seq<char>,
    pub read_only: bool,
    pub dynamic_typing: bool,
    pub floating_point_range: Option<FloatingPointRange>,
    pub integer_range: Option<IntegerRange>,
}

/// Per-parameter metadata: description, constraint text, the read-only and
/// dynamic-typing flags, and the optional numeric ranges.
pub struct Descriptor {
    pub description: String,
    pub additional_constraints: String,
    pub read_only: bool,
    pub dynamic_typing: bool,
    pub floating_point_range: Option<FloatingPointRange>,
    pub integer_range: Option<IntegerRange>,
}

impl View for Descriptor {
    type V = DescriptorView;

    open spec fn view(&self) -> DescriptorView {
        DescriptorView {
            description: self.description@,
            additional_constraints: self.additional_constraints@,
            read_only: self.read_only,
            dynamic_typing: self.dynamic_typing,
            floating_point_range: self.floating_point_range,
            integer_range: self.integer_range,
        }
    }
}

/// Mathematical model of a parameter: metadata plus current value.
pub struct ParameterView {
    pub descriptor: DescriptorView,
    pub value: ValueView,
}

/// A parameter: metadata plus current value.
pub struct Parameter {
    pub descriptor: Descriptor,
    pub value: Value,
}

impl View for Parameter {
    type V = ParameterView;

    open spec fn view(&self) -> ParameterView {
        ParameterView { descriptor: self.descriptor@, value: self.value@ }
    }
}

/// Whether a value conforms to the ranges of a descriptor: an integer range
/// constrains `I64` and `VecI64` values, a floating-point range constrains
/// `F64` and `VecF64` values, and every other combination passes.
pub open spec fn range_ok(d: DescriptorView, v: ValueView) -> bool {
    match (v, d.integer_range) {
        (ValueView::I64(x), Some(r)) => int_range_contains(r.min, r.max, r.step, x),
        (ValueView::I64Array(xs), Some(r)) => forall|i: int|
            0 <= i < xs.len() ==> int_range_contains(r.min, r.max, r.step, xs[i]),
        _ => match (v, d.floating_point_range) {
            (ValueView::F64(x), Some(r)) => fp_range_contains(r.min, r.max, r.step, x),
            (ValueView::F64Array(xs), Some(r)) => forall|i: int|
                0 <= i < xs.len() ==> fp_range_contains(r.min, r.max, r.step, xs[i]),
            _ => true,
        },
    }
}

/// A well-formed parameter: an attached integer range has a positive stride,
/// and the stored value conforms to the attached ranges.
pub open spec fn param_wf(p: ParameterView) -> bool {
    &&& (p.descriptor.integer_range matches Some(r) ==> r.wf())
    &&& range_ok(p.descriptor, p.value)
}

/// The model of a freshly created parameter: the given value and flags, no
/// ranges, empty constraint text.
pub open spec fn fresh_param(
    v: ValueView,
    read_only: bool,
    dynamic_typing: bool,
    description: Seq<char>,
) -> ParameterView {
    ParameterView {
        descriptor: DescriptorView {
            description,
            additional_constraints: Seq::empty(),
            read_only,
            dynamic_typing,
            floating_point_range: None,
            integer_range: None,
        },
        value: v,
    }
}

impl Parameter {
    /// A fresh parameter: no ranges, empty constraint text.
    pub fn new(value: Value, read_only: bool, dynamic_typing: bool, description: String) -> (r:
        Self)
        ensures
            r@ == fresh_param(value@, read_only, dynamic_typing, description@),
    {
        Parameter {
            descriptor: Descriptor {
                description,
                additional_constraints: String::new(),
                read_only,
                dynamic_typing,
                floating_point_range: None,
                integer_range: None,
            },
            value,
        }
    }

    /// True iff `value` conforms to this parameter's attached ranges.
    #[verifier::loop_isolation(false)]
    pub fn check_range(&self, value: &Value) -> (r: bool)
        requires
            self@.descriptor.integer_range matches Some(ir) ==> ir.wf(),
        ensures
            r == range_ok(self@.descriptor, value@),
    {
        match (value, &self.descriptor.integer_range) {
            (Value::I64(x), Some(range)) => {
                return range.contains(*x);
            },
            (Value::VecI64(arr), Some(range)) => {
                let mut i: usize = 0;
                while i < arr.len()
                    invariant
                        i <= arr.len(),
                        range.wf(),
                        forall|j: int|
                            0 <= j < i ==> int_range_contains(
                                range.min,
                                range.max,
                                range.step,
                                arr@[j],
                            ),
                    decreases arr.len() - i,
                {
                    if !range.contains(arr[i]) {
                        proof {
                            assert(!int_range_contains(range.min, range.max, range.step, arr@[i as int]));
                            assert(exists|j: int|
                                0 <= j < arr@.len() && !int_range_contains(
                                    range.min,
                                    range.max,
                                    range.step,
                                    arr@[j],
                                ));
                            assert(self@.descriptor.integer_range == Some(*range));
                            assert(value@ matches ValueView::I64Array(xs) && xs == arr@);
                            assert(!range_ok(self@.descriptor, value@));
                        }
                        return false;
                    }
                    i += 1;
                }
                return true;
            },
            _ => {},
        }
        match (value, &self.descriptor.floating_point_range) {
            (Value::F64(x), Some(range)) => range.contains(*x),
            (Value::VecF64(arr), Some(range)) => {
                let mut i: usize = 0;
                while i < arr.len()
                    invariant
                        i <= arr.len(),
                        forall|j: int|
                            0 <= j < i ==> fp_range_contains(
                                range.min,
                                range.max,
                                range.step,
                                arr@[j],
                            ),
                    decreases arr.len() - i,
                {
                    if !range.contains(arr[i]) {
                        proof {
                            assert(!fp_range_contains(range.min, range.max, range.step, arr@[i as int]));
                            assert(exists|j: int|
                                0 <= j < arr@.len() && !fp_range_contains(
                                    range.min,
                                    range.max,
                                    range.step,
                                    arr@[j],
                                ));
                            assert(self@.descriptor.floating_point_range == Some(*range));
                            assert(value@ matches ValueView::F64Array(xs) && xs == arr@);
                            assert(!range_ok(self@.descriptor, value@));
                        }
                        return false;
                    }
                    i += 1;
                }
                true
            },
            _ => true,
        }
    }
}

/// A store entry: a parameter under its name.
pub type Entry = (Seq<char>, ParameterView);

/// Entries strictly sorted by name in UTF-8 byte order.
pub open spec fn sorted_entries(e: Seq<Entry>) -> bool {
    forall|i: int, j: int| 0 <= i < j < e.len() ==> name_lt(#[trigger] e[i].0, #[trigger] e[j].0)
}

/// Whether an entry under `name` exists.
pub open spec fn has_name(e: Seq<Entry>, name: Seq<char>) -> bool {
    exists|i: int| 0 <= i < e.len() && e[i].0 == name
}

/// The index of the entry under `name`; meaningful only when `has_name`.
pub open spec fn index_of(e: Seq<Entry>, name: Seq<char>) -> int {
    choose|i: int| 0 <= i < e.len() && e[i].0 == name
}

/// The parameter stored under `name`; meaningful only when `has_name`.
pub open spec fn lookup(e: Seq<Entry>, name: Seq<char>) -> ParameterView {
    e[index_of(e, name)].1
}

/// In a sorted entry sequence, names are unique.
pub proof fn lemma_sorted_index_unique(e: Seq<Entry>, i: int, j: int)
    requires
        sorted_entries(e),
        0 <= i < e.len(),
        0 <= j < e.len(),
        e[i].0 == e[j].0,
    ensures
        i == j,
{
    if i < j {
        lemma_bytes_lt_irreflexive(vstd::utf8::encode_utf8(e[i].0));
    }
    if j < i {
        lemma_bytes_lt_irreflexive(vstd::utf8::encode_utf8(e[i].0));
    }
}

/// Insertion into a name-sorted entry sequence.
pub open spec fn insert_entry(e: Seq<Entry>, name: Seq<char>, p: ParameterView) -> Seq<Entry>
    decreases e.len(),
{
    if e.len() == 0 {
        seq![(name, p)]
    } else if name_lt(e[0].0, name) {
        seq![e[0]] + insert_entry(e.drop_first(), name, p)
    } else {
        seq![(name, p)] + e
    }
}

/// Where a scan finds the slot for `name`, insertion splits the sequence
/// exactly there.
pub proof fn lemma_insert_entry_split(e: Seq<Entry>, name: Seq<char>, p: ParameterView, k: int)
    requires
        0 <= k <= e.len(),
        forall|j: int| 0 <= j < k ==> name_lt(#[trigger] e[j].0, name),
        k < e.len() ==> name_lt(name, e[k].0),
    ensures
        insert_entry(e, name, p) == e.subrange(0, k) + seq![(name, p)] + e.subrange(
            k,
            e.len() as int,
        ),
    decreases k,
{
    if k == 0 {
        if e.len() == 0 {
            assert(insert_entry(e, name, p) =~= e.subrange(0, 0) + seq![(name, p)] + e.subrange(
                0,
                0,
            ));
        } else {
            lemma_bytes_lt_irreflexive(vstd::utf8::encode_utf8(name));
            lemma_bytes_lt_irreflexive(vstd::utf8::encode_utf8(e[0].0));
            if name_lt(e[0].0, name) {
                lemma_bytes_lt_transitive(
                    vstd::utf8::encode_utf8(e[0].0),
                    vstd::utf8::encode_utf8(name),
                    vstd::utf8::encode_utf8(e[0].0),
                );
            }
            assert(insert_entry(e, name, p) =~= e.subrange(0, 0) + seq![(name, p)] + e.subrange(
                0,
                e.len() as int,
            ));
        }
    } else {
        let rest = e.drop_first();
        assert(forall|j: int| 0 <= j < k - 1 ==> name_lt(#[trigger] rest[j].0, name));
        lemma_insert_entry_split(rest, name, p, k - 1);
        assert(insert_entry(e, name, p) =~= e.subrange(0, k) + seq![(name, p)] + e.subrange(
            k,
            e.len() as int,
        ));
    }
}



/// The description a fresh parameter gets: the given one, or the parameter's
/// own name.
pub open spec fn default_description(d: Option<Seq<char>>, name: Seq<char>) -> Seq<char> {
    match d {
        Some(s) => s,
        None => name,
    }
}

/// View of an optional description argument.
pub open spec fn opt_view(d: Option<String>) -> Option<Seq<char>> {
    match d {
        Some(s) => Some(s@),
        None => None,
    }
}

/// Every stored parameter is well-formed.
pub open spec fn params_wf(e: Seq<Entry>) -> bool {
    forall|i: int| 0 <= i < e.len() ==> param_wf(#[trigger] e[i].1)
}

/// Outcome of the statically typed local set: rejects the unset value, a
/// dynamically typed or read-only target, a range violation and a tag
/// change; replaces the value of an existing parameter, creating an absent
/// one as statically typed with no ranges.
pub open spec fn set_parameter_spec(
    e: Seq<Entry>,
    name: Seq<char>,
    v: ValueView,
    read_only: bool,
    description: Option<Seq<char>>,
) -> Result<Seq<Entry>, ParamError> {
    if v is NotSet {
        Err(ParamError::InvalidValue)
    } else if has_name(e, name) {
        let p = lookup(e, name);
        if p.descriptor.dynamic_typing {
            Err(ParamError::TypingModeMismatch)
        } else if p.descriptor.read_only {
            Err(ParamError::ReadOnly)
        } else if !range_ok(p.descriptor, v) {
            Err(ParamError::RangeViolation)
        } else if tag_of(p.value) != tag_of(v) {
            Err(ParamError::TypeMismatch)
        } else {
            Ok(
                e.update(
                    index_of(e, name),
                    (name, ParameterView { descriptor: p.descriptor, value: v }),
                ),
            )
        }
    } else {
        Ok(
            insert_entry(
                e,
                name,
                fresh_param(v, read_only, false, default_description(description, name)),
            ),
        )
    }
}

/// Outcome of the dynamically typed local set: rejects a statically typed or
/// read-only target and a range violation; replaces the value of an existing
/// parameter whatever its tag, creating an absent one as dynamically typed.
pub open spec fn set_dynamic_spec(
    e: Seq<Entry>,
    name: Seq<char>,
    v: ValueView,
    read_only: bool,
    description: Option<Seq<char>>,
) -> Result<Seq<Entry>, ParamError> {
    if has_name(e, name) {
        let p = lookup(e, name);
        if !p.descriptor.dynamic_typing {
            Err(ParamError::TypingModeMismatch)
        } else if p.descriptor.read_only {
            Err(ParamError::ReadOnly)
        } else if !range_ok(p.descriptor, v) {
            Err(ParamError::RangeViolation)
        } else {
            Ok(
                e.update(
                    index_of(e, name),
                    (name, ParameterView { descriptor: p.descriptor, value: v }),
                ),
            )
        }
    } else {
        Ok(
            insert_entry(
                e,
                name,
                fresh_param(v, read_only, true, default_description(description, name)),
            ),
        )
    }
}

/// Whether a value conforms to a prospective integer range: it constrains
/// `I64` and `VecI64` values and passes everything else.
pub open spec fn int_value_conforms(r: IntegerRange, v: ValueView) -> bool {
    match v {
        ValueView::I64(x) => int_range_contains(r.min, r.max, r.step, x),
        ValueView::I64Array(xs) => forall|i: int|
            0 <= i < xs.len() ==> int_range_contains(r.min, r.max, r.step, xs[i]),
        _ => true,
    }
}

/// Whether a value conforms to a prospective floating-point range: it
/// constrains `F64` and `VecF64` values and passes everything else.
pub open spec fn fp_value_conforms(r: FloatingPointRange, v: ValueView) -> bool {
    match v {
        ValueView::F64(x) => fp_range_contains(r.min, r.max, r.step, x),
        ValueView::F64Array(xs) => forall|i: int|
            0 <= i < xs.len() ==> fp_range_contains(r.min, r.max, r.step, xs[i]),
        _ => true,
    }
}

/// Outcome of attaching an integer range: the parameter must exist, the
/// stride must be positive, the current value must conform to the
/// prospective range, and the parameter must be integer-typed or
/// dynamically typed.
pub open spec fn set_integer_range_spec(
    e: Seq<Entry>,
    name: Seq<char>,
    min: i64,
    max: i64,
    step: u64,
) -> Result<Seq<Entry>, ParamError> {
    if !has_name(e, name) {
        Err(ParamError::UnknownParameter)
    } else if step == 0 {
        Err(ParamError::InvalidRangeAttachment)
    } else {
        let p = lookup(e, name);
        let r = IntegerRange { min, max, step };
        if !int_value_conforms(r, p.value) {
            Err(ParamError::RangeViolation)
        } else if p.descriptor.dynamic_typing || p.value is I64 || p.value is I64Array {
            Ok(
                e.update(
                    index_of(e, name),
                    (
                        name,
                        ParameterView {
                            descriptor: DescriptorView { integer_range: Some(r), ..p.descriptor },
                            value: p.value,
                        },
                    ),
                ),
            )
        } else {
            Err(ParamError::InvalidRangeAttachment)
        }
    }
}

/// Outcome of attaching a floating-point range: the parameter must exist,
/// the current value must conform to the prospective range, and the
/// parameter must be float-typed or dynamically typed.
pub open spec fn set_floating_point_range_spec(
    e: Seq<Entry>,
    name: Seq<char>,
    min: u64,
    max: u64,
    step: u64,
) -> Result<Seq<Entry>, ParamError> {
    if !has_name(e, name) {
        Err(ParamError::UnknownParameter)
    } else {
        let p = lookup(e, name);
        let r = FloatingPointRange { min, max, step };
        if !fp_value_conforms(r, p.value) {
            Err(ParamError::RangeViolation)
        } else if p.descriptor.dynamic_typing || p.value is F64 || p.value is F64Array {
            Ok(
                e.update(
                    index_of(e, name),
                    (
                        name,
                        ParameterView {
                            descriptor: DescriptorView {
                                floating_point_range: Some(r),
                                ..p.descriptor
                            },
                            value: p.value,
                        },
                    ),
                ),
            )
        } else {
            Err(ParamError::InvalidRangeAttachment)
        }
    }
}

/// True iff `value` conforms to the prospective integer range.
#[verifier::loop_isolation(false)]
fn int_conforms(range: &IntegerRange, value: &Value) -> (r: bool)
    requires
        range.wf(),
    ensures
        r == int_value_conforms(*range, value@),
{
    match value {
        Value::I64(x) => range.contains(*x),
        Value::VecI64(arr) => {
            let mut i: usize = 0;
            while i < arr.len()
                invariant
                    i <= arr.len(),
                    forall|j: int|
                        0 <= j < i ==> int_range_contains(range.min, range.max, range.step, arr@[j]),
                decreases arr.len() - i,
            {
                if !range.contains(arr[i]) {
                    proof {
                        assert(!int_range_contains(range.min, range.max, range.step, arr@[i as int]));
                        assert(value@ matches ValueView::I64Array(xs) && xs == arr@);
                        assert(!int_value_conforms(*range, value@));
                    }
                    return false;
                }
                i += 1;
            }
            true
        },
        _ => true,
    }
}

/// True iff `value` conforms to the prospective floating-point range.
#[verifier::loop_isolation(false)]
fn fp_conforms(range: &FloatingPointRange, value: &Value) -> (r: bool)
    ensures
        r == fp_value_conforms(*range, value@),
{
    match value {
        Value::F64(x) => range.contains(*x),
        Value::VecF64(arr) => {
            let mut i: usize = 0;
            while i < arr.len()
                invariant
                    i <= arr.len(),
                    forall|j: int|
                        0 <= j < i ==> fp_range_contains(range.min, range.max, range.step, arr@[j]),
                decreases arr.len() - i,
            {
                if !range.contains(arr[i]) {
                    proof {
                        assert(!fp_range_contains(range.min, range.max, range.step, arr@[i as int]));
                        assert(value@ matches ValueView::F64Array(xs) && xs == arr@);
                        assert(!fp_value_conforms(*range, value@));
                    }
                    return false;
                }
                i += 1;
            }
            true
        },
        _ => true,
    }
}

/// The ordered store of parameters, keyed by name.
pub struct Parameters {
    params: Vec<(String, Parameter)>,
}

impl Parameters {
    /// The entries of the store, in storage order.
    pub closed spec fn entries(&self) -> Seq<Entry> {
        Seq::new(self.params@.len(), |i: int| (self.params@[i].0@, self.params@[i].1@))
    }

    /// A well-formed store: entries strictly sorted by name, every parameter
    /// well-formed.
    pub open spec fn wf(&self) -> bool {
        sorted_entries(self.entries()) && params_wf(self.entries())
    }

    /// An empty store.
    pub fn new() -> (r: Self)
        ensures
            r.wf(),
            r.entries() == Seq::<Entry>::empty(),
    {
        let r = Parameters { params: Vec::new() };
        proof {
            assert(r.entries() =~= Seq::<Entry>::empty());
        }
        r
    }

    /// Finds the slot of `name`: either its index (found), or the index at
    /// which it would be inserted to keep the store sorted.
    #[verifier::loop_isolation(false)]
    fn find_slot(&self, name: &str) -> (r: (usize, bool))
        requires
            self.wf(),
        ensures
            r.1 ==> r.0 < self.entries().len() && self.entries()[r.0 as int].0 == name@
                && has_name(self.entries(), name@) && index_of(self.entries(), name@) == r.0,
            !r.1 ==> !has_name(self.entries(), name@) && r.0 <= self.entries().len() && (forall|
                j: int,
            |
                0 <= j < r.0 ==> name_lt(#[trigger] self.entries()[j].0, name@)) && (r.0
                < self.entries().len() ==> name_lt(name@, self.entries()[r.0 as int].0)),
    {
        let ghost e = self.entries();
        let mut i: usize = 0;
        while i < self.params.len()
            invariant
                i <= e.len(),
                forall|j: int| 0 <= j < i ==> name_lt(#[trigger] e[j].0, name@),
            decreases e.len() - i,
        {
            let c = name_compare(self.params[i].0.as_str(), name);
            match c {
                NameCmp::Less => {
                    i += 1;
                },
                NameCmp::Equal => {
                    proof {
                        assert(e[i as int].0 == name@);
                        let k = index_of(e, name@);
                        lemma_sorted_index_unique(e, k, i as int);
                    }
                    return (i, true);
                },
                NameCmp::Greater => {
                    proof {
                        assert(name_lt(name@, e[i as int].0));
                        assert forall|j: int| 0 <= j < e.len() implies e[j].0 != name@ by {
                            if j < i {
                                if e[j].0 == name@ {
                                    lemma_bytes_lt_irreflexive(vstd::utf8::encode_utf8(name@));
                                }
                            } else {
                                if j > i {
                                    lemma_bytes_lt_transitive(
                                        vstd::utf8::encode_utf8(name@),
                                        vstd::utf8::encode_utf8(e[i as int].0),
                                        vstd::utf8::encode_utf8(e[j].0),
                                    );
                                }
                                if e[j].0 == name@ {
                                    lemma_bytes_lt_irreflexive(vstd::utf8::encode_utf8(name@));
                                }
                            }
                        }
                    }
                    return (i, false);
                },
            }
        }
        proof {
            assert forall|j: int| 0 <= j < e.len() implies e[j].0 != name@ by {
                if e[j].0 == name@ {
                    lemma_bytes_lt_irreflexive(vstd::utf8::encode_utf8(name@));
                }
            }
        }
        (i, false)
    }

    /// Statically typed set: creates an absent parameter, or replaces the
    /// value of an existing statically typed, writable parameter with a
    /// value of the same tag that its ranges admit.
    pub fn set_parameter(
        &mut self,
        name: String,
        value: Value,
        read_only: bool,
        description: Option<String>,
    ) -> (r: Result<(), ParamError>)
        requires
            old(self).wf(),
        ensures
            final(self).wf(),
            (match set_parameter_spec(
                old(self).entries(),
                name@,
                value@,
                read_only,
                opt_view(description),
            ) {
                Ok(e2) => r is Ok && final(self).entries() == e2,
                Err(k) => r == Err::<(), ParamError>(k) && final(self).entries() == old(
                    self,
                ).entries(),
            }),
    {
        let ghost e = self.entries();
        if let Value::NotSet = value {
            return Err(ParamError::InvalidValue);
        }
        let (i, found) = self.find_slot(name.as_str());
        if found {
            if self.params[i].1.descriptor.dynamic_typing {
                return Err(ParamError::TypingModeMismatch);
            }
            if self.params[i].1.descriptor.read_only {
                return Err(ParamError::ReadOnly);
            }
            if !self.params[i].1.check_range(&value) {
                return Err(ParamError::RangeViolation);
            }
            if !self.params[i].1.value.type_check(&value) {
                return Err(ParamError::TypeMismatch);
            }
            let ghost pv = ParameterView { descriptor: e[i as int].1.descriptor, value: value@ };
            let entry = vec_index_mut(&mut self.params, i);
            entry.1.value = value;
            proof {
                let e2 = self.entries();
                assert(e2 =~= e.update(i as int, (e[i as int].0, pv)));
                assert(sorted_entries(e2)) by {
                    assert(forall|j: int| 0 <= j < e2.len() ==> e2[j].0 == e[j].0);
                }
                assert(params_wf(e2));
            }
            Ok(())
        } else {
            let description = match description {
                Some(d) => d,
                None => name.clone(),
            };
            let param = Parameter::new(value, read_only, false, description);
            let ghost pv = param@;
            proof {
                lemma_insert_entry_split(e, name@, pv, i as int);
            }
            self.params.insert(i, (name, param));
            proof {
                let e2 = self.entries();
                assert(e2 =~= e.subrange(0, i as int) + seq![(name@, pv)] + e.subrange(
                    i as int,
                    e.len() as int,
                ));
                assert forall|j: int| i <= j < e.len() implies name_lt(name@, e[j].0) by {
                    if j > i {
                        lemma_bytes_lt_transitive(
                            vstd::utf8::encode_utf8(name@),
                            vstd::utf8::encode_utf8(e[i as int].0),
                            vstd::utf8::encode_utf8(e[j].0),
                        );
                    }
                }
                assert(sorted_entries(e2)) by {
                    assert forall|a: int, b: int| 0 <= a < b < e2.len() implies name_lt(
                        e2[a].0,
                        e2[b].0,
                    ) by {
                        if a < i && b > i {
                            lemma_bytes_lt_transitive(
                                vstd::utf8::encode_utf8(e2[a].0),
                                vstd::utf8::encode_utf8(name@),
                                vstd::utf8::encode_utf8(e2[b].0),
                            );
                        }
                    }
                }
                assert(param_wf(pv));
                assert(params_wf(e2));
            }
            Ok(())
        }
    }

    /// Dynamically typed set: creates an absent parameter as dynamically
    /// typed, or replaces the value of an existing dynamically typed,
    /// writable parameter with any value its ranges admit.
    pub fn set_dynamically_typed_parameter(
        &mut self,
        name: String,
        value: Value,
        read_only: bool,
        description: Option<String>,
    ) -> (r: Result<(), ParamError>)
        requires
            old(self).wf(),
        ensures
            final(self).wf(),
            (match set_dynamic_spec(
                old(self).entries(),
                name@,
                value@,
                read_only,
                opt_view(description),
            ) {
                Ok(e2) => r is Ok && final(self).entries() == e2,
                Err(k) => r == Err::<(), ParamError>(k) && final(self).entries() == old(
                    self,
                ).entries(),
            }),
    {
        let ghost e = self.entries();
        let (i, found) = self.find_slot(name.as_str());
        if found {
            if !self.params[i].1.descriptor.dynamic_typing {
                return Err(ParamError::TypingModeMismatch);
            }
            if self.params[i].1.descriptor.read_only {
                return Err(ParamError::ReadOnly);
            }
            if !self.params[i].1.check_range(&value) {
                return Err(ParamError::RangeViolation);
            }
            let ghost pv = ParameterView { descriptor: e[i as int].1.descriptor, value: value@ };
            let entry = vec_index_mut(&mut self.params, i);
            entry.1.value = value;
            proof {
                let e2 = self.entries();
                assert(e2 =~= e.update(i as int, (e[i as int].0, pv)));
                assert(sorted_entries(e2)) by {
                    assert(forall|j: int| 0 <= j < e2.len() ==> e2[j].0 == e[j].0);
                }
                assert(params_wf(e2));
            }
            Ok(())
        } else {
            let description = match description {
                Some(d) => d,
                None => name.clone(),
            };
            let param = Parameter::new(value, read_only, true, description);
            let ghost pv = param@;
            proof {
                lemma_insert_entry_split(e, name@, pv, i as int);
            }
            self.params.insert(i, (name, param));
            proof {
                let e2 = self.entries();
                assert(e2 =~= e.subrange(0, i as int) + seq![(name@, pv)] + e.subrange(
                    i as int,
                    e.len() as int,
                ));
                assert forall|j: int| i <= j < e.len() implies name_lt(name@, e[j].0) by {
                    if j > i {
                        lemma_bytes_lt_transitive(
                            vstd::utf8::encode_utf8(name@),
                            vstd::utf8::encode_utf8(e[i as int].0),
                            vstd::utf8::encode_utf8(e[j].0),
                        );
                    }
                }
                assert(sorted_entries(e2)) by {
                    assert forall|a: int, b: int| 0 <= a < b < e2.len() implies name_lt(
                        e2[a].0,
                        e2[b].0,
                    ) by {
                        if a < i && b > i {
                            lemma_bytes_lt_transitive(
                                vstd::utf8::encode_utf8(e2[a].0),
                                vstd::utf8::encode_utf8(name@),
                                vstd::utf8::encode_utf8(e2[b].0),
                            );
                        }
                    }
                }
                assert(param_wf(pv));
                assert(params_wf(e2));
            }
            Ok(())
        }
    }

    /// Attaches an integer range to an existing integer-typed or dynamically
    /// typed parameter, provided the stride is positive and the current
    /// value conforms to the prospective range.
    pub fn set_integer_range(&mut self, name: &str, min: i64, max: i64, step: u64) -> (r: Result<
        (),
        ParamError,
    >)
        requires
            old(self).wf(),
        ensures
            final(self).wf(),
            (match set_integer_range_spec(old(self).entries(), name@, min, max, step) {
                Ok(e2) => r is Ok && final(self).entries() == e2,
                Err(k) => r == Err::<(), ParamError>(k) && final(self).entries() == old(
                    self,
                ).entries(),
            }),
    {
        let ghost e = self.entries();
        let (i, found) = self.find_slot(name);
        if !found {
            return Err(ParamError::UnknownParameter);
        }
        if step == 0 {
            return Err(ParamError::InvalidRangeAttachment);
        }
        let range = IntegerRange { min, max, step };
        if !int_conforms(&range, &self.params[i].1.value) {
            return Err(ParamError::RangeViolation);
        }
        let typed_ok = matches!(self.params[i].1.value, Value::I64(_) | Value::VecI64(_));
        if self.params[i].1.descriptor.dynamic_typing || typed_ok {
            let ghost pv = ParameterView {
                descriptor: DescriptorView {
                    integer_range: Some(range),
                    ..e[i as int].1.descriptor
                },
                value: e[i as int].1.value,
            };
            let entry = vec_index_mut(&mut self.params, i);
            entry.1.descriptor.integer_range = Some(range);
            proof {
                let e2 = self.entries();
                assert(e2 =~= e.update(i as int, (e[i as int].0, pv)));
                assert(sorted_entries(e2)) by {
                    assert(forall|j: int| 0 <= j < e2.len() ==> e2[j].0 == e[j].0);
                }
                assert(param_wf(pv));
                assert(params_wf(e2));
            }
            Ok(())
        } else {
            Err(ParamError::InvalidRangeAttachment)
        }
    }

    /// Attaches a floating-point range to an existing float-typed or
    /// dynamically typed parameter, provided the current value conforms to
    /// the prospective range. Bounds and stride are binary64 bit patterns.
    pub fn set_floating_point_range(&mut self, name: &str, min: u64, max: u64, step: u64) -> (r:
        Result<(), ParamError>)
        requires
            old(self).wf(),
        ensures
            final(self).wf(),
            (match set_floating_point_range_spec(old(self).entries(), name@, min, max, step) {
                Ok(e2) => r is Ok && final(self).entries() == e2,
                Err(k) => r == Err::<(), ParamError>(k) && final(self).entries() == old(
                    self,
                ).entries(),
            }),
    {
        let ghost e = self.entries();
        let (i, found) = self.find_slot(name);
        if !found {
            return Err(ParamError::UnknownParameter);
        }
        let range = FloatingPointRange { min, max, step };
        if !fp_conforms(&range, &self.params[i].1.value) {
            return Err(ParamError::RangeViolation);
        }
        let typed_ok = matches!(self.params[i].1.value, Value::F64(_) | Value::VecF64(_));
        if self.params[i].1.descriptor.dynamic_typing || typed_ok {
            let ghost pv = ParameterView {
                descriptor: DescriptorView {
                    floating_point_range: Some(range),
                    ..e[i as int].1.descriptor
                },
                value: e[i as int].1.value,
            };
            let entry = vec_index_mut(&mut self.params, i);
            entry.1.descriptor.floating_point_range = Some(range);
            proof {
                let e2 = self.entries();
                assert(e2 =~= e.update(i as int, (e[i as int].0, pv)));
                assert(sorted_entries(e2)) by {
                    assert(forall|j: int| 0 <= j < e2.len() ==> e2[j].0 == e[j].0);
                }
                assert(param_wf(pv));
                assert(params_wf(e2));
            }
            Ok(())
        } else {
            Err(ParamError::InvalidRangeAttachment)
        }
    }
}


/// The per-item outcome of a remote set request.
#[derive(Clone, Copy, PartialEq, Eq, Structural, Debug)]
pub enum RemoteSetStatus {
    Accepted,
    UnknownParameter,
    ReadOnly,
    RangeViolation,
    TypeMismatch,
}

/// Outcome of one remote set: unknown names, read-only targets, range
/// violations and tag changes on statically typed parameters are refused;
/// everything else is assigned.
pub open spec fn remote_set_status(e: Seq<Entry>, name: Seq<char>, v: ValueView) -> RemoteSetStatus {
    if !has_name(e, name) {
        RemoteSetStatus::UnknownParameter
    } else {
        let p = lookup(e, name);
        if p.descriptor.read_only {
            RemoteSetStatus::ReadOnly
        } else if !range_ok(p.descriptor, v) {
            RemoteSetStatus::RangeViolation
        } else if p.descriptor.dynamic_typing || tag_of(p.value) == tag_of(v) {
            RemoteSetStatus::Accepted
        } else {
            RemoteSetStatus::TypeMismatch
        }
    }
}

/// The store after one remote set: updated on acceptance, unchanged on
/// every refusal.
pub open spec fn remote_set_entries(e: Seq<Entry>, name: Seq<char>, v: ValueView) -> Seq<Entry> {
    if remote_set_status(e, name, v) is Accepted {
        e.update(
            index_of(e, name),
            (name, ParameterView { descriptor: lookup(e, name).descriptor, value: v }),
        )
    } else {
        e
    }
}

impl Parameters {
    /// Applies one element of a remote set request and reports its outcome.
    pub fn remote_set(&mut self, name: &str, value: Value) -> (st: RemoteSetStatus)
        requires
            old(self).wf(),
        ensures
            final(self).wf(),
            st == remote_set_status(old(self).entries(), name@, value@),
            final(self).entries() == remote_set_entries(old(self).entries(), name@, value@),
    {
        let ghost e = self.entries();
        let (i, found) = self.find_slot(name);
        if !found {
            return RemoteSetStatus::UnknownParameter;
        }
        if self.params[i].1.descriptor.read_only {
            return RemoteSetStatus::ReadOnly;
        }
        if !self.params[i].1.check_range(&value) {
            return RemoteSetStatus::RangeViolation;
        }
        if self.params[i].1.descriptor.dynamic_typing || self.params[i].1.value.type_check(&value) {
            let ghost pv = ParameterView { descriptor: e[i as int].1.descriptor, value: value@ };
            let entry = vec_index_mut(&mut self.params, i);
            entry.1.value = value;
            proof {
                let e2 = self.entries();
                assert(e2 =~= e.update(i as int, (e[i as int].0, pv)));
                assert(sorted_entries(e2)) by {
                    assert(forall|j: int| 0 <= j < e2.len() ==> e2[j].0 == e[j].0);
                }
                assert(params_wf(e2));
            }
            RemoteSetStatus::Accepted
        } else {
            RemoteSetStatus::TypeMismatch
        }
    }

    /// The number of parameters in the store.
    pub fn len(&self) -> (r: usize)
        ensures
            r == self.entries().len(),
    {
        self.params.len()
    }

    /// The name of the `i`-th parameter in iteration (sorted) order.
    pub fn name_at(&self, i: usize) -> (r: &String)
        requires
            i < self.entries().len(),
        ensures
            r@ == self.entries()[i as int].0,
    {
        &self.params[i].0
    }

    /// The parameter stored under `name`, if any.
    pub fn get(&self, name: &str) -> (r: Option<&Parameter>)
        requires
            self.wf(),
        ensures
            (match r {
                Some(p) => has_name(self.entries(), name@) && p@ == lookup(
                    self.entries(),
                    name@,
                ),
                None => !has_name(self.entries(), name@),
            }),
    {
        let (i, found) = self.find_slot(name);
        if found {
            Some(&self.params[i].1)
        } else {
            None
        }
    }
}


/// Updating the entry under `name` keeps the order and moves the lookup to
/// the new parameter.
pub proof fn lemma_lookup_update(e: Seq<Entry>, name: Seq<char>, p: ParameterView)
    requires
        sorted_entries(e),
        has_name(e, name),
    ensures
        ({
            let e2 = e.update(index_of(e, name), (name, p));
            &&& sorted_entries(e2)
            &&& has_name(e2, name)
            &&& index_of(e2, name) == index_of(e, name)
            &&& lookup(e2, name) == p
        }),
{
    let i = index_of(e, name);
    assert(0 <= i < e.len() && e[i].0 == name);
    let e2 = e.update(i, (name, p));
    assert(forall|j: int| 0 <= j < e2.len() ==> e2[j].0 == e[j].0);
    assert(sorted_entries(e2));
    assert(has_name(e2, name));
    let i2 = index_of(e2, name);
    lemma_sorted_index_unique(e2, i2, i);
}

/// Inserting a fresh name keeps the order and makes the lookup find the new
/// parameter.
pub proof fn lemma_insert_lookup(e: Seq<Entry>, name: Seq<char>, p: ParameterView)
    requires
        sorted_entries(e),
        !has_name(e, name),
    ensures
        ({
            let e2 = insert_entry(e, name, p);
            &&& e2.len() == e.len() + 1
            &&& sorted_entries(e2)
            &&& has_name(e2, name)
            &&& lookup(e2, name) == p
            &&& forall|i: int|
                0 <= i < e2.len() ==> (e2[i] == (name, p) || e.contains(#[trigger] e2[i]))
        }),
    decreases e.len(),
{
    let e2 = insert_entry(e, name, p);
    if e.len() == 0 {
        assert(e2 =~= seq![(name, p)]);
        assert(e2[0].0 == name);
        assert(has_name(e2, name));
        let i2 = index_of(e2, name);
        assert(0 <= i2 < 1);
    } else if name_lt(e[0].0, name) {
        let rest = e.drop_first();
        assert(sorted_entries(rest));
        assert(!has_name(rest, name)) by {
            if has_name(rest, name) {
                let j = choose|j: int| 0 <= j < rest.len() && rest[j].0 == name;
                assert(e[j + 1].0 == name);
            }
        }
        lemma_insert_lookup(rest, name, p);
        let t2 = insert_entry(rest, name, p);
        assert(e2 =~= seq![e[0]] + t2);
        assert forall|i: int| 0 <= i < e2.len() implies (e2[i] == (name, p) || e.contains(
            #[trigger] e2[i],
        )) by {
            if i > 0 {
                assert(e2[i] == t2[i - 1]);
                if t2[i - 1] == (name, p) {
                } else {
                    assert(rest.contains(t2[i - 1]));
                    let j = choose|j: int| 0 <= j < rest.len() && rest[j] == t2[i - 1];
                    assert(e[j + 1] == t2[i - 1]);
                }
            } else {
                assert(e2[0] == e[0]);
                assert(e.contains(e[0]));
            }
        }
        assert(sorted_entries(e2)) by {
            assert forall|a: int, b: int| 0 <= a < b < e2.len() implies name_lt(
                e2[a].0,
                e2[b].0,
            ) by {
                if a == 0 {
                    if e2[b] == (name, p) {
                        assert(name_lt(e[0].0, name));
                    } else {
                        assert(rest.contains(e2[b]));
                        let j = choose|j: int| 0 <= j < rest.len() && rest[j] == e2[b];
                        assert(e[j + 1] == e2[b]);
                        assert(name_lt(e[0].0, e[j + 1].0));
                    }
                } else {
                    assert(e2[a] == t2[a - 1] && e2[b] == t2[b - 1]);
                    assert(sorted_entries(t2));
                }
            }
        }
        let i2 = choose|j: int| 0 <= j < t2.len() && t2[j].0 == name;
        assert(e2[i2 + 1].0 == name);
        assert(has_name(e2, name));
        let k2 = index_of(e2, name);
        lemma_sorted_index_unique(e2, k2, i2 + 1);
        assert(lookup(e2, name) == lookup(t2, name));
    } else {
        assert(e2 =~= seq![(name, p)] + e);
        assert(e2[0].0 == name);
        assert(has_name(e2, name));
        assert(name != e[0].0);
        assert(name_lt(name, e[0].0)) by {
            crate::lemma_bytes_total(
                vstd::utf8::encode_utf8(name),
                vstd::utf8::encode_utf8(e[0].0),
            );
            vstd::utf8::encode_utf8_decode_utf8(name);
            vstd::utf8::encode_utf8_decode_utf8(e[0].0);
        }
        assert(sorted_entries(e2)) by {
            assert forall|a: int, b: int| 0 <= a < b < e2.len() implies name_lt(
                e2[a].0,
                e2[b].0,
            ) by {
                if a == 0 {
                    if b == 1 {
                    } else {
                        lemma_bytes_lt_transitive(
                            vstd::utf8::encode_utf8(name),
                            vstd::utf8::encode_utf8(e[0].0),
                            vstd::utf8::encode_utf8(e2[b].0),
                        );
                    }
                }
            }
        }
        let k2 = index_of(e2, name);
        lemma_sorted_index_unique(e2, k2, 0);
    }
}

} // verus!
