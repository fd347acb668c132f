use vstd::prelude::*;
use vstd::utf8::encode_utf8;

use crate::list::{list_names_spec, selected};
use crate::name_lt;
use crate::range::int_range_contains;
use crate::store::{has_name, index_of, insert_entry, lemma_insert_lookup, lemma_lookup_update,
    lemma_sorted_index_unique, lookup, param_wf, params_wf, remote_set_entries, remote_set_status,
    set_dynamic_spec, set_parameter_spec, sorted_entries, Entry, ParamError, ParameterView,
    RemoteSetStatus};
use crate::value::{tag_of, ValueView};

verus! {

/// A read-only parameter never changes: every local set of it fails, and a
/// remote set of it leaves the store as it was.
pub proof fn lemma_read_only_preserved(
    e: Seq<Entry>,
    name: Seq<char>,
    v: ValueView,
    ro: bool,
    d: Option<Seq<char>>,
)
    requires
        has_name(e, name),
        lookup(e, name).descriptor.read_only,
    ensures
        set_parameter_spec(e, name, v, ro, d) is Err,
        set_dynamic_spec(e, name, v, ro, d) is Err,
        remote_set_status(e, name, v) == RemoteSetStatus::ReadOnly,
        remote_set_entries(e, name, v) == e,
        lookup(remote_set_entries(e, name, v), name) == lookup(e, name),
{
}

/// A statically typed parameter keeps its variant tag across every accepted
/// assignment, local or remote.
pub proof fn lemma_static_set_preserves_tag(
    e: Seq<Entry>,
    name: Seq<char>,
    v: ValueView,
    ro: bool,
    d: Option<Seq<char>>,
)
    requires
        sorted_entries(e),
        has_name(e, name),
        !lookup(e, name).descriptor.dynamic_typing,
    ensures
        (set_parameter_spec(e, name, v, ro, d) matches Ok(e1) ==> has_name(e1, name) && tag_of(
            lookup(e1, name).value,
        ) == tag_of(lookup(e, name).value)),
        (remote_set_status(e, name, v) is Accepted ==> {
            let e1 = remote_set_entries(e, name, v);
            has_name(e1, name) && tag_of(lookup(e1, name).value) == tag_of(lookup(e, name).value)
        }),
{
    let p = lookup(e, name);
    if set_parameter_spec(e, name, v, ro, d) is Ok {
        lemma_lookup_update(e, name, ParameterView { descriptor: p.descriptor, value: v });
    }
    if remote_set_status(e, name, v) is Accepted {
        lemma_lookup_update(e, name, ParameterView { descriptor: p.descriptor, value: v });
    }
}

/// In a well-formed store, every integer stored under an attached integer
/// range lies in that range and on its stride.
pub proof fn lemma_int_range_conformance(e: Seq<Entry>, i: int)
    requires
        params_wf(e),
        0 <= i < e.len(),
        e[i].1.descriptor.integer_range is Some,
    ensures
        ({
            let r = e[i].1.descriptor.integer_range->0;
            &&& (e[i].1.value matches ValueView::I64(x) ==> int_range_contains(
                r.min,
                r.max,
                r.step,
                x,
            ))
            &&& (e[i].1.value matches ValueView::I64Array(xs) ==> forall|j: int|
                0 <= j < xs.len() ==> int_range_contains(r.min, r.max, r.step, xs[j]))
        }),
{
    assert(param_wf(e[i].1));
}

/// Issuing the same statically typed set twice yields the same store: the
/// repeat either succeeds without changing anything, or (after creating a
/// read-only parameter) fails, which changes nothing either.
pub proof fn lemma_set_parameter_idempotent(
    e: Seq<Entry>,
    name: Seq<char>,
    v: ValueView,
    ro: bool,
    d: Option<Seq<char>>,
    e1: Seq<Entry>,
)
    requires
        sorted_entries(e),
        set_parameter_spec(e, name, v, ro, d) == Ok::<Seq<Entry>, ParamError>(e1),
    ensures
        (match set_parameter_spec(e1, name, v, ro, d) {
            Ok(e2) => e2 == e1,
            Err(k) => k == ParamError::ReadOnly,
        }),
{
    if has_name(e, name) {
        let p = lookup(e, name);
        let p2 = ParameterView { descriptor: p.descriptor, value: v };
        lemma_lookup_update(e, name, p2);
        assert(e1 == e.update(index_of(e, name), (name, p2)));
        assert(lookup(e1, name) == p2);
        let e2 = e1.update(index_of(e1, name), (name, p2));
        assert(e2 =~= e1);
    } else {
        let p = crate::store::fresh_param(
            v,
            ro,
            false,
            crate::store::default_description(d, name),
        );
        lemma_insert_lookup(e, name, p);
        assert(e1 == insert_entry(e, name, p));
        assert(lookup(e1, name) == p);
        if !ro {
            let p2 = ParameterView { descriptor: p.descriptor, value: v };
            assert(p2 == p);
            lemma_lookup_update(e1, name, p2);
            let e2 = e1.update(index_of(e1, name), (name, p2));
            assert(e2 =~= e1) by {
                assert(e1[index_of(e1, name)] == (name, p2));
            }
        }
    }
}

/// Issuing the same dynamically typed set twice yields the same store: the
/// repeat either succeeds without changing anything, or (after creating a
/// read-only parameter) fails, which changes nothing either.
pub proof fn lemma_set_dynamic_idempotent(
    e: Seq<Entry>,
    name: Seq<char>,
    v: ValueView,
    ro: bool,
    d: Option<Seq<char>>,
    e1: Seq<Entry>,
)
    requires
        sorted_entries(e),
        set_dynamic_spec(e, name, v, ro, d) == Ok::<Seq<Entry>, ParamError>(e1),
    ensures
        (match set_dynamic_spec(e1, name, v, ro, d) {
            Ok(e2) => e2 == e1,
            Err(k) => k == ParamError::ReadOnly,
        }),
{
    if has_name(e, name) {
        let p = lookup(e, name);
        let p2 = ParameterView { descriptor: p.descriptor, value: v };
        lemma_lookup_update(e, name, p2);
        assert(e1 == e.update(index_of(e, name), (name, p2)));
        let e2 = e1.update(index_of(e1, name), (name, p2));
        assert(e2 =~= e1);
    } else {
        let p = crate::store::fresh_param(
            v,
            ro,
            true,
            crate::store::default_description(d, name),
        );
        lemma_insert_lookup(e, name, p);
        if !ro {
            let p2 = ParameterView { descriptor: p.descriptor, value: v };
            assert(p2 == p);
            lemma_lookup_update(e1, name, p2);
            let e2 = e1.update(index_of(e1, name), (name, p2));
            assert(e2 =~= e1) by {
                assert(e1[index_of(e1, name)] == (name, p2));
            }
        }
    }
}

/// A remote set is idempotent on the store: applying the same element twice
/// leaves what the first application made.
pub proof fn lemma_remote_set_idempotent(e: Seq<Entry>, name: Seq<char>, v: ValueView)
    requires
        sorted_entries(e),
    ensures
        remote_set_entries(remote_set_entries(e, name, v), name, v) == remote_set_entries(
            e,
            name,
            v,
        ),
{
    if remote_set_status(e, name, v) is Accepted {
        let p = lookup(e, name);
        let p2 = ParameterView { descriptor: p.descriptor, value: v };
        lemma_lookup_update(e, name, p2);
        let e1 = e.update(index_of(e, name), (name, p2));
        assert(remote_set_status(e1, name, v) is Accepted);
        let e2 = e1.update(index_of(e1, name), (name, p2));
        assert(e2 =~= e1) by {
            assert(e1[index_of(e1, name)] == (name, p2));
        }
    }
}

/// Every name a list query replies with is a stored name, and the reply
/// keeps the store's sorted order.
pub proof fn lemma_list_names_sorted(e: Seq<Entry>, pbs: Seq<Seq<u8>>, depth: u64)
    requires
        sorted_entries(e),
    ensures
        ({
            let ns = list_names_spec(e, pbs, depth);
            &&& (forall|a: int|
                0 <= a < ns.len() ==> exists|i: int| 0 <= i < e.len() && #[trigger] ns[a] == e[i].0)
            &&& (forall|a: int, b: int|
                0 <= a < b < ns.len() ==> name_lt(#[trigger] ns[a], #[trigger] ns[b]))
        }),
    decreases e.len(),
{
    if e.len() > 0 {
        let front = e.drop_last();
        assert(sorted_entries(front));
        lemma_list_names_sorted(front, pbs, depth);
        let nsf = list_names_spec(front, pbs, depth);
        let ns = list_names_spec(e, pbs, depth);
        assert forall|a: int| 0 <= a < nsf.len() implies exists|i: int|
            0 <= i < e.len() && #[trigger] nsf[a] == e[i].0 by {
            let i = choose|i: int| 0 <= i < front.len() && nsf[a] == front[i].0;
            assert(e[i].0 == nsf[a]);
        }
        if selected(encode_utf8(e.last().0), pbs, depth) {
            assert(ns == nsf.push(e.last().0));
            assert forall|a: int, b: int| 0 <= a < b < ns.len() implies name_lt(
                #[trigger] ns[a],
                #[trigger] ns[b],
            ) by {
                if b == ns.len() - 1 {
                    let i = choose|i: int| 0 <= i < front.len() && ns[a] == front[i].0;
                    assert(name_lt(e[i].0, e[e.len() - 1].0));
                }
            }
        }
    }
}

/// With no prefixes and depth zero, a list query replies with every stored
/// name, in order.
pub proof fn lemma_list_all_names(e: Seq<Entry>)
    ensures
        list_names_spec(e, Seq::empty(), 0) =~= Seq::new(e.len(), |i: int| e[i].0),
    decreases e.len(),
{
    if e.len() > 0 {
        lemma_list_all_names(e.drop_last());
    }
}

} // verus!
