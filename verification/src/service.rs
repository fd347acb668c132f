use vstd::prelude::*;
use vstd::string::StringExecFns;

use crate::range::{FloatingPointRange, IntegerRange};
use crate::store::{has_name, lookup, remote_set_entries, remote_set_status, Entry, Parameters,
    ParameterView, RemoteSetStatus};
use crate::value::{tag_of, variant_name_of, ValueView};
use crate::wire::{decode_wire, encode_wire, ParameterValue, WireView};
use crate::value::Value;

verus! {

/// The views of a vector of strings.
pub open spec fn names_view(names: Seq<String>) -> Seq<Seq<char>> {
    Seq::new(names.len(), |i: int| names[i]@)
}

/// One element of a remote set request: a parameter name and its prospective
/// wire-encoded value.
pub struct SetRequestItem {
    pub name: String,
    pub value: ParameterValue,
}

/// The views of a vector of request items.
pub open spec fn items_view(items: Seq<SetRequestItem>) -> Seq<(Seq<char>, WireView)> {
    Seq::new(items.len(), |i: int| (items[i].name@, items[i].value@))
}

/// The per-item reply of a remote set request.
pub struct SetResult {
    pub successful: bool,
    pub reason: String,
}

/// Mathematical model of a per-item reply.
pub struct SetResultView {
    pub successful: bool,
    pub reason: Seq<char>,
}

impl View for SetResult {
    type V = SetResultView;

    open spec fn view(&self) -> SetResultView {
        SetResultView { successful: self.successful, reason: self.reason@ }
    }
}

/// The views of a vector of replies.
pub open spec fn results_view(rs: Seq<SetResult>) -> Seq<SetResultView> {
    Seq::new(rs.len(), |i: int| rs[i]@)
}

/// The reason text a remote set reply carries, for each outcome.
pub open spec fn remote_set_reason(e: Seq<Entry>, name: Seq<char>, v: ValueView) -> Seq<char> {
    match remote_set_status(e, name, v) {
        RemoteSetStatus::Accepted => Seq::empty(),
        RemoteSetStatus::UnknownParameter => "no such parameter: name = "@ + name,
        RemoteSetStatus::ReadOnly => name + " is read only"@,
        RemoteSetStatus::RangeViolation => name + " is not in the range"@,
        RemoteSetStatus::TypeMismatch => "failed type checking: dst = "@ + variant_name_of(
            lookup(e, name).value,
        ) + ", src = "@ + variant_name_of(v),
    }
}

/// The store and replies after a whole remote set batch, applied in request
/// order: each element is decoded from the wire and applied to the store the
/// previous elements left.
pub open spec fn remote_set_batch(e0: Seq<Entry>, items: Seq<(Seq<char>, WireView)>) -> (
    Seq<Entry>,
    Seq<SetResultView>,
)
    decreases items.len(),
{
    if items.len() == 0 {
        (e0, Seq::empty())
    } else {
        let (e1, rs) = remote_set_batch(e0, items.drop_last());
        let name = items.last().0;
        let v = decode_wire(items.last().1);
        (
            remote_set_entries(e1, name, v),
            rs.push(
                SetResultView {
                    successful: remote_set_status(e1, name, v) is Accepted,
                    reason: remote_set_reason(e1, name, v),
                },
            ),
        )
    }
}

/// Serves a remote set request: each element is decoded and applied in
/// order, and carries its own outcome; a refused element leaves the store
/// untouched and the batch continues.
#[verifier::loop_isolation(false)]
pub fn handle_set(params: &mut Parameters, requests: &Vec<SetRequestItem>) -> (r: Vec<SetResult>)
    requires
        old(params).wf(),
    ensures
        final(params).wf(),
        (final(params).entries(), results_view(r@)) == remote_set_batch(
            old(params).entries(),
            items_view(requests@),
        ),
{
    let ghost e0 = params.entries();
    let ghost items = items_view(requests@);
    let mut results: Vec<SetResult> = Vec::new();
    let mut i: usize = 0;
    while i < requests.len()
        invariant
            i <= requests.len(),
            params.wf(),
            (params.entries(), results_view(results@)) == remote_set_batch(e0, items.take(i as int)),
        decreases requests.len() - i,
    {
        let ghost e1 = params.entries();
        let name = requests[i].name.as_str();
        let value = Value::from_wire(&requests[i].value);
        let ghost v = value@;
        let src_name = value.variant_name();
        let st = params.remote_set(name, value);
        let (successful, reason) = match st {
            RemoteSetStatus::Accepted => (true, String::new()),
            RemoteSetStatus::UnknownParameter => {
                let mut m = String::from_str("no such parameter: name = ");
                m.append(name);
                (false, m)
            },
            RemoteSetStatus::ReadOnly => {
                let mut m = String::from_str(name);
                m.append(" is read only");
                (false, m)
            },
            RemoteSetStatus::RangeViolation => {
                let mut m = String::from_str(name);
                m.append(" is not in the range");
                (false, m)
            },
            RemoteSetStatus::TypeMismatch => {
                let mut m = String::from_str("failed type checking: dst = ");
                match params.get(name) {
                    Some(p) => {
                        m.append(p.value.variant_name());
                    },
                    None => {},
                }
                m.append(", src = ");
                m.append(src_name);
                (false, m)
            },
        };
        proof {
            assert(st is TypeMismatch ==> params.entries() == e1 && has_name(e1, name@));
            assert(reason@ == remote_set_reason(e1, name@, v));
        }
        results.push(SetResult { successful, reason });
        i += 1;
        proof {
            assert(items.take(i as int).drop_last() =~= items.take(i as int - 1));
            assert(items.take(i as int).last() == items[i as int - 1]);
            assert(results_view(results@) =~= results_view(results@.drop_last()).push(
                results@.last()@,
            ));
            assert((params.entries(), results_view(results@)) == remote_set_batch(
                e0,
                items.take(i as int),
            ));
        }
    }
    proof {
        assert(items.take(requests.len() as int) =~= items);
    }
    results
}

/// The wire encodings of the values stored under the requested names, in
/// request order; names absent from the store are silently skipped.
pub open spec fn get_values_spec(e: Seq<Entry>, names: Seq<Seq<char>>) -> Seq<WireView>
    decreases names.len(),
{
    if names.len() == 0 {
        Seq::empty()
    } else {
        let front = get_values_spec(e, names.drop_last());
        if has_name(e, names.last()) {
            front.push(encode_wire(lookup(e, names.last()).value))
        } else {
            front
        }
    }
}

/// The views of a vector of wire records.
pub open spec fn wires_view(ws: Seq<ParameterValue>) -> Seq<WireView> {
    Seq::new(ws.len(), |i: int| ws[i]@)
}

/// Serves a get request: the stored values under the requested names,
/// wire-encoded, in request order; unknown names are skipped.
#[verifier::loop_isolation(false)]
pub fn handle_get(params: &Parameters, names: &Vec<String>) -> (r: Vec<ParameterValue>)
    requires
        params.wf(),
    ensures
        wires_view(r@) == get_values_spec(params.entries(), names_view(names@)),
{
    let ghost e = params.entries();
    let ghost ns = names_view(names@);
    let mut result: Vec<ParameterValue> = Vec::new();
    let mut i: usize = 0;
    while i < names.len()
        invariant
            i <= names.len(),
            wires_view(result@) == get_values_spec(e, ns.take(i as int)),
        decreases names.len() - i,
    {
        match params.get(names[i].as_str()) {
            Some(p) => {
                result.push(ParameterValue::from_value(&p.value));
            },
            None => {},
        }
        i += 1;
        proof {
            assert(ns.take(i as int).drop_last() =~= ns.take(i as int - 1));
            assert(ns.take(i as int).last() == ns[i as int - 1]);
            assert(wires_view(result@) =~= get_values_spec(e, ns.take(i as int)));
        }
    }
    proof {
        assert(ns.take(names.len() as int) =~= ns);
    }
    result
}

/// Serves a get-types request: one wire discriminator per requested name, in
/// request order, with the unset discriminator for unknown names.
#[verifier::loop_isolation(false)]
pub fn handle_get_types(params: &Parameters, names: &Vec<String>) -> (r: Vec<u8>)
    requires
        params.wf(),
    ensures
        r@.len() == names@.len(),
        forall|i: int|
            0 <= i < names@.len() ==> r@[i] == (if has_name(params.entries(), names@[i]@) {
                tag_of(lookup(params.entries(), names@[i]@).value)
            } else {
                0u8
            }),
{
    let mut result: Vec<u8> = Vec::new();
    let mut i: usize = 0;
    while i < names.len()
        invariant
            i <= names.len(),
            result@.len() == i,
            forall|j: int|
                0 <= j < i ==> result@[j] == (if has_name(params.entries(), names@[j]@) {
                    tag_of(lookup(params.entries(), names@[j]@).value)
                } else {
                    0u8
                }),
        decreases names.len() - i,
    {
        match params.get(names[i].as_str()) {
            Some(p) => {
                result.push(p.value.type_id());
            },
            None => {
                result.push(0);
            },
        }
        i += 1;
    }
    result
}



/// Mathematical model of a descriptor reply record.
pub struct ParameterDescriptorView {
    pub name: Seq<char>,
    pub type_: u8,
    pub description: Seq<char>,
    pub additional_constraints: Seq<char>,
    pub read_only: bool,
    pub dynamic_typing: bool,
    pub integer_range: Seq<IntegerRange>,
    pub floating_point_range: Seq<FloatingPointRange>,
}

/// A descriptor reply record: the parameter's name, its current wire
/// discriminator, its metadata, and its ranges as sequences of length zero
/// or one.
pub struct ParameterDescriptor {
    pub name: String,
    pub type_: u8,
    pub description: String,
    pub additional_constraints: String,
    pub read_only: bool,
    pub dynamic_typing: bool,
    pub integer_range: Vec<IntegerRange>,
    pub floating_point_range: Vec<FloatingPointRange>,
}

impl View for ParameterDescriptor {
    type V = ParameterDescriptorView;

    open spec fn view(&self) -> ParameterDescriptorView {
        ParameterDescriptorView {
            name: self.name@,
            type_: self.type_,
            description: self.description@,
            additional_constraints: self.additional_constraints@,
            read_only: self.read_only,
            dynamic_typing: self.dynamic_typing,
            integer_range: self.integer_range@,
            floating_point_range: self.floating_point_range@,
        }
    }
}

/// The descriptor record a parameter is reported as.
pub open spec fn describe_one(name: Seq<char>, p: ParameterView) -> ParameterDescriptorView {
    ParameterDescriptorView {
        name,
        type_: tag_of(p.value),
        description: p.descriptor.description,
        additional_constraints: p.descriptor.additional_constraints,
        read_only: p.descriptor.read_only,
        dynamic_typing: p.descriptor.dynamic_typing,
        integer_range: (match p.descriptor.integer_range {
            Some(r) => seq![r],
            None => Seq::empty(),
        }),
        floating_point_range: (match p.descriptor.floating_point_range {
            Some(r) => seq![r],
            None => Seq::empty(),
        }),
    }
}

/// The descriptor records of the requested names, in request order; names
/// absent from the store are skipped.
pub open spec fn describe_spec(e: Seq<Entry>, names: Seq<Seq<char>>) -> Seq<
    ParameterDescriptorView,
>
    decreases names.len(),
{
    if names.len() == 0 {
        Seq::empty()
    } else {
        let front = describe_spec(e, names.drop_last());
        if has_name(e, names.last()) {
            front.push(describe_one(names.last(), lookup(e, names.last())))
        } else {
            front
        }
    }
}

/// The views of a vector of descriptor records.
pub open spec fn descriptors_view(ds: Seq<ParameterDescriptor>) -> Seq<ParameterDescriptorView> {
    Seq::new(ds.len(), |i: int| ds[i]@)
}

/// Serves a describe request: one descriptor record per requested name
/// present in the store, in request order.
#[verifier::loop_isolation(false)]
pub fn handle_describe(params: &Parameters, names: &Vec<String>) -> (r: Vec<ParameterDescriptor>)
    requires
        params.wf(),
    ensures
        descriptors_view(r@) == describe_spec(params.entries(), names_view(names@)),
{
    let ghost e = params.entries();
    let ghost ns = names_view(names@);
    let mut result: Vec<ParameterDescriptor> = Vec::new();
    let mut i: usize = 0;
    while i < names.len()
        invariant
            i <= names.len(),
            descriptors_view(result@) == describe_spec(e, ns.take(i as int)),
        decreases names.len() - i,
    {
        match params.get(names[i].as_str()) {
            Some(p) => {
                let mut integer_range: Vec<IntegerRange> = Vec::new();
                match &p.descriptor.integer_range {
                    Some(r) => {
                        integer_range.push(*r);
                    },
                    None => {},
                }
                let mut floating_point_range: Vec<FloatingPointRange> = Vec::new();
                match &p.descriptor.floating_point_range {
                    Some(r) => {
                        floating_point_range.push(*r);
                    },
                    None => {},
                }
                let d = ParameterDescriptor {
                    name: names[i].clone(),
                    type_: p.value.type_id(),
                    description: p.descriptor.description.clone(),
                    additional_constraints: p.descriptor.additional_constraints.clone(),
                    read_only: p.descriptor.read_only,
                    dynamic_typing: p.descriptor.dynamic_typing,
                    integer_range,
                    floating_point_range,
                };
                proof {
                    assert(d@.integer_range =~= describe_one(ns[i as int], lookup(e, ns[i as int])).integer_range);
                    assert(d@.floating_point_range =~= describe_one(ns[i as int], lookup(e, ns[i as int])).floating_point_range);
                    assert(d@ == describe_one(ns[i as int], lookup(e, ns[i as int])));
                }
                result.push(d);
            },
            None => {},
        }
        i += 1;
        proof {
            assert(ns.take(i as int).drop_last() =~= ns.take(i as int - 1));
            assert(ns.take(i as int).last() == ns[i as int - 1]);
            assert(descriptors_view(result@) =~= describe_spec(e, ns.take(i as int)));
        }
    }
    proof {
        assert(ns.take(names.len() as int) =~= ns);
    }
    result
}

} // verus!