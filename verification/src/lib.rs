use vstd::prelude::*;
use vstd::string::StringSliceAdditionalSpecFns;

pub mod value;
pub mod wire;
pub mod fp;
pub mod range;
pub mod store;
pub mod service;
pub mod list;
pub mod laws;
pub mod multi_array;

verus! {

/// Lexicographic strict order on byte sequences.
pub open spec fn bytes_lt(a: Seq<u8>, b: Seq<u8>) -> bool
    decreases a.len(),
{
    if b.len() == 0 {
        false
    } else if a.len() == 0 {
        true
    } else if a[0] < b[0] {
        true
    } else if a[0] == b[0] {
        bytes_lt(a.drop_first(), b.drop_first())
    } else {
        false
    }
}

/// Parameter names are ordered by their UTF-8 byte representation.
pub open spec fn name_lt(a: Seq<char>, b: Seq<char>) -> bool {
    bytes_lt(vstd::utf8::encode_utf8(a), vstd::utf8::encode_utf8(b))
}

pub proof fn lemma_bytes_lt_irreflexive(a: Seq<u8>)
    ensures
        !bytes_lt(a, a),
    decreases a.len(),
{
    if a.len() > 0 {
        lemma_bytes_lt_irreflexive(a.drop_first());
    }
}

pub proof fn lemma_bytes_lt_transitive(a: Seq<u8>, b: Seq<u8>, c: Seq<u8>)
    requires
        bytes_lt(a, b),
        bytes_lt(b, c),
    ensures
        bytes_lt(a, c),
    decreases a.len() + b.len() + c.len(),
{
    if a.len() > 0 && b.len() > 0 && c.len() > 0 && a[0] == b[0] && b[0] == c[0] {
        lemma_bytes_lt_transitive(a.drop_first(), b.drop_first(), c.drop_first());
    }
}

/// Two distinct byte sequences are ordered one way or the other.
pub proof fn lemma_bytes_total(a: Seq<u8>, b: Seq<u8>)
    ensures
        a == b || bytes_lt(a, b) || bytes_lt(b, a),
    decreases a.len() + b.len(),
{
    if a.len() > 0 && b.len() > 0 {
        if a[0] == b[0] {
            lemma_bytes_total(a.drop_first(), b.drop_first());
            if a.drop_first() == b.drop_first() {
                assert(a.drop_first().len() == b.drop_first().len());
                assert(a.drop_first().len() == a.len() - 1);
                assert(b.drop_first().len() == b.len() - 1);
                assert(a.len() == b.len());
                assert forall|i: int| 0 <= i < a.len() implies a[i] == b[i] by {
                    if i > 0 {
                        assert(a[i] == a.drop_first()[i - 1]);
                        assert(b[i] == b.drop_first()[i - 1]);
                    }
                }
                assert(a =~= b);
            }
        }
    } else if a.len() == 0 && b.len() == 0 {
        assert(a =~= b);
    }
}

/// The outcome of a three-way name comparison.
#[derive(Clone, Copy, PartialEq, Eq, Structural, Debug)]
pub enum NameCmp {
    Less,
    Equal,
    Greater,
}

/// Three-way comparison of two strings by their UTF-8 bytes.
pub fn name_compare(a: &str, b: &str) -> (r: NameCmp)
    ensures
        r is Less ==> name_lt(a@, b@),
        r is Equal ==> a@ == b@,
        r is Greater ==> name_lt(b@, a@),
{
    let ab = a.as_bytes();
    let bb = b.as_bytes();
    let ghost sa = a.spec_bytes();
    let ghost sb = b.spec_bytes();
    proof {
        assert(sa == vstd::utf8::encode_utf8(a@));
        assert(sb == vstd::utf8::encode_utf8(b@));
        assert(sa.skip(0) =~= sa);
        assert(sb.skip(0) =~= sb);
    }
    let mut i: usize = 0;
    while i < ab.len() && i < bb.len()
        invariant
            sa == vstd::utf8::encode_utf8(a@),
            sb == vstd::utf8::encode_utf8(b@),
            i <= sa.len(),
            i <= sb.len(),
            ab@ == sa,
            bb@ == sb,
            sa.subrange(0, i as int) == sb.subrange(0, i as int),
            bytes_lt(sa, sb) == bytes_lt(sa.skip(i as int), sb.skip(i as int)),
            bytes_lt(sb, sa) == bytes_lt(sb.skip(i as int), sa.skip(i as int)),
        decreases sa.len() - i,
    {
        let x = ab[i];
        let y = bb[i];
        proof {
            assert(sa.skip(i as int).len() > 0);
            assert(sb.skip(i as int).len() > 0);
            assert(sa.skip(i as int)[0] == x);
            assert(sb.skip(i as int)[0] == y);
            assert(sa.skip(i as int).drop_first() =~= sa.skip(i as int + 1));
            assert(sb.skip(i as int).drop_first() =~= sb.skip(i as int + 1));
        }
        if x < y {
            proof {
                assert(bytes_lt(sa.skip(i as int), sb.skip(i as int)));
            }
            return NameCmp::Less;
        } else if y < x {
            proof {
                assert(bytes_lt(sb.skip(i as int), sa.skip(i as int)));
            }
            return NameCmp::Greater;
        }
        proof {
            assert(sa.subrange(0, i as int + 1) =~= sa.subrange(0, i as int).push(x));
            assert(sb.subrange(0, i as int + 1) =~= sb.subrange(0, i as int).push(y));
        }
        i += 1;
    }
    if i < ab.len() {
        proof {
            assert(sb.skip(i as int).len() == 0);
            assert(!bytes_lt(sa.skip(i as int), sb.skip(i as int)));
            assert(bytes_lt(sb.skip(i as int), sa.skip(i as int)));
        }
        NameCmp::Greater
    } else if i < bb.len() {
        proof {
            assert(sa.skip(i as int).len() == 0);
            assert(bytes_lt(sa.skip(i as int), sb.skip(i as int)));
        }
        NameCmp::Less
    } else {
        proof {
            assert(sa =~= sb);
            vstd::utf8::encode_utf8_decode_utf8(a@);
            vstd::utf8::encode_utf8_decode_utf8(b@);
        }
        NameCmp::Equal
    }
}

} // verus!
