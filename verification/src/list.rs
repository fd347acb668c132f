use vstd::prelude::*;
use vstd::string::{StringExecFns, StringSliceAdditionalSpecFns};
use vstd::utf8::encode_utf8;

use crate::store::{Entry, Parameters};
use crate::{lemma_bytes_lt_irreflexive, name_compare, NameCmp};
use crate::service::names_view;

verus! {

/// The separator of parameter name segments, as a byte: an ASCII dot.
pub open spec fn sep_byte() -> u8 {
    46u8
}

/// How many separator bytes a name holds.
pub open spec fn sep_count(bs: Seq<u8>) -> int
    decreases bs.len(),
{
    if bs.len() == 0 {
        0
    } else {
        sep_count(bs.drop_last()) + if bs.last() == sep_byte() {
            1int
        } else {
            0int
        }
    }
}

/// Whether `bs` begins with `p`.
pub open spec fn starts_with(bs: Seq<u8>, p: Seq<u8>) -> bool {
    bs.len() >= p.len() && bs.take(p.len() as int) == p
}

/// Whether a name matches one requested prefix: the name is the prefix
/// itself, or extends it across a separator while the separator count within
/// the prefix portion stays below a nonzero `depth`.
pub open spec fn matches_prefix(nb: Seq<u8>, pb: Seq<u8>, depth: u64) -> bool {
    nb == pb || (starts_with(nb, pb.push(sep_byte())) && (depth == 0 || sep_count(
        nb.take(pb.len() as int),
    ) < depth))
}

/// Whether a name is selected by a list query: everything is selected when
/// no prefix is given and `depth` is zero; a name with fewer separators than
/// `depth` is selected; otherwise some requested prefix must match.
pub open spec fn selected(nb: Seq<u8>, pbs: Seq<Seq<u8>>, depth: u64) -> bool {
    (pbs.len() == 0 && depth == 0) || sep_count(nb) < depth || exists|k: int|
        0 <= k < pbs.len() && matches_prefix(nb, pbs[k], depth)
}

/// The index of the last separator byte, or -1 when there is none.
pub open spec fn last_dot(bs: Seq<u8>) -> int
    decreases bs.len(),
{
    if bs.len() == 0 {
        -1
    } else if bs.last() == sep_byte() {
        bs.len() - 1
    } else {
        last_dot(bs.drop_last())
    }
}

/// The name up to (excluding) its last separator: the parent prefix a
/// selected dotted name contributes to the reply.
pub open spec fn dot_prefix(bs: Seq<u8>) -> Seq<u8> {
    bs.take(last_dot(bs))
}

/// A nonnegative last-separator index lies in the name and holds the
/// separator byte.
pub proof fn lemma_last_dot(bs: Seq<u8>)
    ensures
        last_dot(bs) < bs.len(),
        last_dot(bs) >= 0 ==> bs[last_dot(bs)] == sep_byte(),
        last_dot(bs) >= -1,
    decreases bs.len(),
{
    if bs.len() > 0 && bs.last() != sep_byte() {
        lemma_last_dot(bs.drop_last());
    }
}

/// Appends `x` unless it is already present.
pub open spec fn dedup_push(s: Seq<Seq<u8>>, x: Seq<u8>) -> Seq<Seq<u8>> {
    if s.contains(x) {
        s
    } else {
        s.push(x)
    }
}

/// The UTF-8 byte sequences of a vector of strings.
pub open spec fn strs_bytes(ss: Seq<String>) -> Seq<Seq<u8>> {
    Seq::new(ss.len(), |i: int| encode_utf8(ss[i]@))
}

/// The names a list query replies with: the store's names, in store
/// (sorted) order, restricted to the selected ones.
pub open spec fn list_names_spec(e: Seq<Entry>, pbs: Seq<Seq<u8>>, depth: u64) -> Seq<Seq<char>>
    decreases e.len(),
{
    if e.len() == 0 {
        Seq::empty()
    } else {
        let front = list_names_spec(e.drop_last(), pbs, depth);
        if selected(encode_utf8(e.last().0), pbs, depth) {
            front.push(e.last().0)
        } else {
            front
        }
    }
}

/// The prefixes a list query replies with: the parent prefix of each
/// selected dotted name, in order of first occurrence, without duplicates.
pub open spec fn list_prefixes_spec(e: Seq<Entry>, pbs: Seq<Seq<u8>>, depth: u64) -> Seq<Seq<u8>>
    decreases e.len(),
{
    if e.len() == 0 {
        Seq::empty()
    } else {
        let front = list_prefixes_spec(e.drop_last(), pbs, depth);
        let nb = encode_utf8(e.last().0);
        if selected(nb, pbs, depth) && last_dot(nb) >= 0 {
            dedup_push(front, dot_prefix(nb))
        } else {
            front
        }
    }
}

/// Counts the separator bytes of a name.
#[verifier::loop_isolation(false)]
fn count_seps(s: &str) -> (r: usize)
    ensures
        r == sep_count(s.spec_bytes()),
{
    let bs = s.as_bytes();
    let ghost sb = s.spec_bytes();
    let mut r: usize = 0;
    let mut i: usize = 0;
    proof {
        assert(sb.take(0) =~= Seq::<u8>::empty());
    }
    while i < bs.len()
        invariant
            i <= sb.len(),
            r <= i,
            r == sep_count(sb.take(i as int)),
        decreases sb.len() - i,
    {
        proof {
            assert(sb.take(i as int + 1).drop_last() =~= sb.take(i as int));
            assert(sb.take(i as int + 1).last() == sb[i as int]);
        }
        if bs[i] == 46u8 {
            r += 1;
        }
        i += 1;
    }
    proof {
        assert(sb.take(sb.len() as int) =~= sb);
    }
    r
}

/// True iff `name` matches the one requested `prefix` under `depth`.
#[verifier::loop_isolation(false)]
fn str_matches_prefix(name: &str, prefix: &str, depth: u64) -> (r: bool)
    ensures
        r == matches_prefix(name.spec_bytes(), prefix.spec_bytes(), depth),
{
    let ghost nb = name.spec_bytes();
    let ghost pb = prefix.spec_bytes();
    let c = name_compare(name, prefix);
    if let NameCmp::Equal = c {
        return true;
    }
    proof {
        lemma_bytes_lt_irreflexive(nb);
        assert(nb != pb);
    }
    let nbs = name.as_bytes();
    let pbs = prefix.as_bytes();
    if nbs.len() <= pbs.len() {
        proof {
            assert(!starts_with(nb, pb.push(sep_byte())));
        }
        return false;
    }
    let mut i: usize = 0;
    while i < pbs.len()
        invariant
            i <= pb.len(),
            forall|j: int| 0 <= j < i ==> nb[j] == pb[j],
        decreases pb.len() - i,
    {
        if nbs[i] != pbs[i] {
            proof {
                assert(!starts_with(nb, pb.push(sep_byte()))) by {
                    if starts_with(nb, pb.push(sep_byte())) {
                        assert(nb.take(pb.len() as int + 1)[i as int] == pb.push(sep_byte())[i as int]);
                    }
                }
            }
            return false;
        }
        i += 1;
    }
    if nbs[pbs.len()] != 46u8 {
        proof {
            assert(!starts_with(nb, pb.push(sep_byte()))) by {
                if starts_with(nb, pb.push(sep_byte())) {
                    assert(nb.take(pb.len() as int + 1)[pb.len() as int] == pb.push(sep_byte())[pb.len() as int]);
                }
            }
        }
        return false;
    }
    proof {
        assert(starts_with(nb, pb.push(sep_byte()))) by {
            assert(nb.take(pb.len() as int + 1) =~= pb.push(sep_byte()));
        }
    }
    if depth == 0 {
        return true;
    }
    let cnt = count_seps(prefix);
    proof {
        assert(nb.take(pb.len() as int) =~= pb);
    }
    (cnt as u64) < depth
}

/// True iff `name` is selected by the list query.
#[verifier::loop_isolation(false)]
fn str_selected(name: &str, prefixes: &Vec<String>, depth: u64) -> (r: bool)
    ensures
        r == selected(name.spec_bytes(), strs_bytes(prefixes@), depth),
{
    let ghost nb = name.spec_bytes();
    let ghost pbs = strs_bytes(prefixes@);
    if prefixes.len() == 0 && depth == 0 {
        return true;
    }
    let cnt = count_seps(name);
    if (cnt as u64) < depth {
        return true;
    }
    let mut k: usize = 0;
    while k < prefixes.len()
        invariant
            k <= prefixes.len(),
            forall|j: int| 0 <= j < k ==> !matches_prefix(nb, #[trigger] pbs[j], depth),
        decreases prefixes.len() - k,
    {
        if str_matches_prefix(name, prefixes[k].as_str(), depth) {
            proof {
                assert(matches_prefix(nb, pbs[k as int], depth));
            }
            return true;
        }
        k += 1;
    }
    false
}

/// The position of the last separator byte of `s`, if any.
#[verifier::loop_isolation(false)]
fn find_last_dot(s: &str) -> (r: (usize, bool))
    ensures
        r.1 ==> last_dot(s.spec_bytes()) == r.0,
        !r.1 ==> last_dot(s.spec_bytes()) == -1,
{
    let bs = s.as_bytes();
    let ghost sb = s.spec_bytes();
    let mut k: usize = 0;
    let mut found = false;
    let mut i: usize = 0;
    proof {
        assert(last_dot(sb.take(0)) == -1);
    }
    while i < bs.len()
        invariant
            i <= sb.len(),
            found ==> k < i && last_dot(sb.take(i as int)) == k,
            !found ==> last_dot(sb.take(i as int)) == -1,
        decreases sb.len() - i,
    {
        proof {
            assert(sb.take(i as int + 1).drop_last() =~= sb.take(i as int));
            assert(sb.take(i as int + 1).last() == sb[i as int]);
        }
        if bs[i] == 46u8 {
            k = i;
            found = true;
        }
        i += 1;
    }
    proof {
        assert(sb.take(sb.len() as int) =~= sb);
    }
    (k, found)
}

/// True iff some string of `v` has the same bytes as `s`.
#[verifier::loop_isolation(false)]
fn contains_string(v: &Vec<String>, s: &String) -> (r: bool)
    ensures
        r == strs_bytes(v@).contains(encode_utf8(s@)),
{
    let mut j: usize = 0;
    while j < v.len()
        invariant
            j <= v.len(),
            forall|i: int| 0 <= i < j ==> strs_bytes(v@)[i] != encode_utf8(s@),
        decreases v.len() - j,
    {
        match name_compare(v[j].as_str(), s.as_str()) {
            NameCmp::Equal => {
                proof {
                    assert(strs_bytes(v@)[j as int] == encode_utf8(s@));
                }
                return true;
            },
            NameCmp::Less => {
                proof {
                    if strs_bytes(v@)[j as int] == encode_utf8(s@) {
                        lemma_bytes_lt_irreflexive(encode_utf8(s@));
                    }
                }
            },
            NameCmp::Greater => {
                proof {
                    if strs_bytes(v@)[j as int] == encode_utf8(s@) {
                        lemma_bytes_lt_irreflexive(encode_utf8(s@));
                    }
                }
            },
        }
        j += 1;
    }
    proof {
        if strs_bytes(v@).contains(encode_utf8(s@)) {
            let i = choose|i: int|
                0 <= i < strs_bytes(v@).len() && strs_bytes(v@)[i] == encode_utf8(s@);
            assert(strs_bytes(v@)[i] != encode_utf8(s@));
        }
    }
    false
}

/// The reply of a list query.
pub struct ListResult {
    pub names: Vec<String>,
    pub prefixes: Vec<String>,
}

/// Serves a list request: walks the store in sorted order, replying with
/// every selected name, and with the parent prefix (the name up to its last
/// separator) of every selected dotted name, deduplicated in order of first
/// occurrence.
#[verifier::loop_isolation(false)]
pub fn handle_list(params: &Parameters, prefixes: &Vec<String>, depth: u64) -> (r: ListResult)
    requires
        params.wf(),
    ensures
        names_view(r.names@) == list_names_spec(params.entries(), strs_bytes(prefixes@), depth),
        strs_bytes(r.prefixes@) == list_prefixes_spec(params.entries(), strs_bytes(prefixes@), depth),
{
    broadcast use vstd::utf8::encode_utf8_valid_utf8;
    broadcast use vstd::utf8::is_char_boundary_iff_not_is_continuation_byte;

    let ghost e = params.entries();
    let ghost pbs = strs_bytes(prefixes@);
    let mut names: Vec<String> = Vec::new();
    let mut out_prefixes: Vec<String> = Vec::new();
    let mut idx: usize = 0;
    while idx < params.len()
        invariant
            idx <= e.len(),
            names_view(names@) == list_names_spec(e.take(idx as int), pbs, depth),
            strs_bytes(out_prefixes@) == list_prefixes_spec(e.take(idx as int), pbs, depth),
        decreases e.len() - idx,
    {
        proof {
            assert(e.take(idx as int + 1).drop_last() =~= e.take(idx as int));
            assert(e.take(idx as int + 1).last() == e[idx as int]);
        }
        let name = params.name_at(idx);
        let ghost nb = encode_utf8(e[idx as int].0);
        if str_selected(name.as_str(), prefixes, depth) {
            names.push(name.clone());
            proof {
                assert(names_view(names@) =~= names_view(names@.drop_last()).push(
                    e[idx as int].0,
                ));
            }
            let (k, hasdot) = find_last_dot(name.as_str());
            if hasdot {
                proof {
                    lemma_last_dot(nb);
                    assert(nb[k as int] == sep_byte());
                    assert(!vstd::utf8::is_continuation_byte(nb[k as int]));
                    assert(vstd::utf8::is_char_boundary(nb, k as int));
                }
                let (pre, _rest) = name.as_str().split_at(k);
                let pr = String::from_str(pre);
                proof {
                    assert(encode_utf8(pr@) =~= dot_prefix(nb));
                }
                if !contains_string(&out_prefixes, &pr) {
                    out_prefixes.push(pr);
                    proof {
                        assert(strs_bytes(out_prefixes@) =~= strs_bytes(
                            out_prefixes@.drop_last(),
                        ).push(dot_prefix(nb)));
                    }
                }
            }
        } else {
            proof {
                assert(names_view(names@) =~= list_names_spec(e.take(idx as int + 1), pbs, depth));
            }
        }
        idx += 1;
        proof {
            assert(names_view(names@) =~= list_names_spec(e.take(idx as int), pbs, depth));
            assert(strs_bytes(out_prefixes@) =~= list_prefixes_spec(e.take(idx as int), pbs, depth));
        }
    }
    proof {
        assert(e.take(e.len() as int) =~= e);
    }
    ListResult { names, prefixes: out_prefixes }
}

} // verus!
