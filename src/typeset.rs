//! The deduplicated set of element types of a schema: the types whose
//! primitives a codec relies on, each once, ordered by signature.
use vstd::prelude::*;

use std::collections::BTreeMap;
use vstd::std_specs::btree::increasing_seq;
use vstd::std_specs::cmp::OrdSpec;
use vstd::std_specs::iter::IteratorSpec;

use crate::schema::{lemma_rank_injective, FieldType, RecordSchema, Scalar};

verus! {

/// The element type of each field, in field order.
pub open spec fn element_types(tys: Seq<FieldType>) -> Seq<Scalar> {
    tys.map_values(|t: FieldType| t.elem())
}

/// Strictly increasing by signature, hence without repeats.
pub open spec fn sorted_by_signature(v: Seq<Scalar>) -> bool {
    forall|i: int, j: int| 0 <= i < j < v.len() ==> (#[trigger] v[i]).rank() < (#[trigger] v[j]).rank()
}

/// `v` is the deduplicated type set of field types `tys`.
pub open spec fn deduplicated(v: Seq<Scalar>, tys: Seq<FieldType>) -> bool {
    &&& sorted_by_signature(v)
    &&& forall|s: Scalar| v.contains(s) <==> element_types(tys).contains(s)
}

/// The distinct element types of the schema's fields, ordered by signature:
/// an array contributes its element type. The types are gathered in a map
/// keyed by signature position, where a repeated type overwrites itself, and
/// read back in key order.
pub fn unique_field_types(record: &RecordSchema) -> (r: Vec<Scalar>)
    ensures
        deduplicated(r@, record.types()),
{
    broadcast use vstd::std_specs::btree::group_btree_axioms, vstd::laws_cmp::group_laws_cmp;

    let ghost tys = record.types();
    let n = record.fields.len();
    let mut by_signature: BTreeMap<u8, Scalar> = BTreeMap::new();
    let mut i: usize = 0;
    while i < n
        invariant
            tys == record.types(),
            n == tys.len(),
            0 <= i <= n,
            forall|k: u8| #[trigger]
                by_signature@.contains_key(k) ==> by_signature@[k].rank() == k as nat,
            forall|x: Scalar| #[trigger]
                by_signature@.contains_key(x.rank() as u8) <==> element_types(tys).take(
                    i as int,
                ).contains(x),
        decreases n - i,
    {
        let s = record.fields[i].ty.element();
        let ghost before = by_signature@;
        by_signature.insert(s.position(), s);
        proof {
            let e = element_types(tys);
            assert(e.take(i + 1) =~= e.take(i as int).push(s));
            assert forall|x: Scalar| #[trigger]
                by_signature@.contains_key(x.rank() as u8) <==> e.take(i + 1).contains(x) by {
                lemma_rank_injective(x, s);
                if x == s {
                    assert(e.take(i + 1)[i as int] == s);
                }
                if e.take(i + 1).contains(x) && x != s {
                    let t = e.take(i + 1);
                    let k = choose|k: int| 0 <= k < t.len() && t[k] == x;
                    assert(e.take(i as int)[k] == x);
                }
            }
        }
        i += 1;
    }
    proof {
        assert(element_types(tys).take(n as int) =~= element_types(tys));
    }
    let mut r: Vec<Scalar> = Vec::new();
    let values = by_signature.values();
    let ghost start = IteratorSpec::remaining(&values);
    for x in it: values
        invariant
            it.seq() == start,
            r.len() == it.index(),
            forall|j: int| 0 <= j < r.len() ==> r@[j] == *start[j],
    {
        r.push(*x);
    }
    proof {
        let m = by_signature@;
        let keys = choose|key_seq: Seq<u8>|
            {
                &&& increasing_seq(key_seq)
                &&& key_seq.to_set() == m.dom()
                &&& key_seq.no_duplicates()
                &&& start == key_seq.map(|j: int, k: u8| &m[k])
            };
        assert(r@.len() == keys.len());
        assert forall|j: int| 0 <= j < r@.len() implies #[trigger] r@[j].rank() == keys[j] as nat by {
            assert(keys.to_set().contains(keys[j]));
            assert(m.contains_key(keys[j]));
            assert(r@[j] == *start[j]);
            assert(start[j] == &m[keys[j]]);
        }
        assert(vstd::laws_cmp::obeys_cmp::<u8>());
        assert(forall|a: int, b: int| 0 <= a < b < keys.len() ==> keys[a].cmp_spec(&keys[b]) is Less);
        assert forall|a: int, b: int| 0 <= a < b < r@.len() implies (#[trigger] r@[a]).rank() < (
        #[trigger] r@[b]).rank() by {
            assert(r@[a].rank() == keys[a] as nat);
            assert(r@[b].rank() == keys[b] as nat);
            assert(keys[a].cmp_spec(&keys[b]) is Less);
            assert(keys[a] < keys[b]);
        }
        assert forall|x: Scalar| r@.contains(x) <==> element_types(tys).contains(x) by {
            if r@.contains(x) {
                let j = choose|j: int| 0 <= j < r@.len() && r@[j] == x;
                assert(r@[j].rank() == keys[j] as nat);
                assert(keys.to_set().contains(keys[j]));
                assert(m.contains_key(x.rank() as u8));
            }
            if element_types(tys).contains(x) {
                assert(m.contains_key(x.rank() as u8));
                assert(keys.to_set().contains(x.rank() as u8));
                let j = choose|j: int| 0 <= j < keys.len() && keys[j] == x.rank() as u8;
                assert(m[keys[j]].rank() == keys[j] as nat);
                lemma_rank_injective(m[keys[j]], x);
                assert(r@[j] == *start[j]);
                assert(start[j] == &m[keys[j]]);
                assert(r@[j] == x);
            }
        }
    }
    r
}

/// Two sequences sorted by signature with the same members are equal.
pub proof fn lemma_sorted_same_members(a: Seq<Scalar>, b: Seq<Scalar>)
    requires
        sorted_by_signature(a),
        sorted_by_signature(b),
        forall|s: Scalar| a.contains(s) <==> b.contains(s),
    ensures
        a == b,
    decreases a.len(),
{
    if a.len() == 0 {
        if b.len() > 0 {
            assert(b.contains(b[0]));
        }
        assert(a =~= b);
    } else {
        assert(a.contains(a[0]));
        assert(b.len() > 0);
        assert(b.contains(b[0]));
        let ka = choose|k: int| 0 <= k < a.len() && a[k] == b[0];
        let kb = choose|k: int| 0 <= k < b.len() && b[k] == a[0];
        if kb > 0 {
            assert(b[0].rank() < b[kb].rank());
            if ka > 0 {
                assert(a[0].rank() < a[ka].rank());
            }
        }
        lemma_rank_injective(a[0], b[0]);
        assert(a[0] == b[0]);
        let ta = a.drop_first();
        let tb = b.drop_first();
        assert forall|s: Scalar| ta.contains(s) <==> tb.contains(s) by {
            if ta.contains(s) {
                let k = choose|k: int| 0 <= k < ta.len() && ta[k] == s;
                assert(a[k + 1] == s);
                assert(a.contains(s));
                let m = choose|m: int| 0 <= m < b.len() && b[m] == s;
                assert(a[0].rank() < s.rank());
                assert(m != 0);
                assert(tb[m - 1] == s);
            }
            if tb.contains(s) {
                let k = choose|k: int| 0 <= k < tb.len() && tb[k] == s;
                assert(b[k + 1] == s);
                assert(b.contains(s));
                let m = choose|m: int| 0 <= m < a.len() && a[m] == s;
                assert(b[0].rank() < s.rank());
                assert(m != 0);
                assert(ta[m - 1] == s);
            }
        }
        lemma_sorted_same_members(ta, tb);
        assert(a =~= seq![a[0]] + ta);
        assert(b =~= seq![b[0]] + tb);
    }
}

} // verus!
