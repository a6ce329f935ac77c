//! Properties that relate the codec facets to each other.
use vstd::prelude::*;

use crate::bytes::{encode_uint, ByteOrder};
use crate::codec::first_unfit;
use crate::declaration::{
    lemma_resolve_err_stays, resolve_prefix, scalar_named, schema_of, ArrayLen, DeclData, DeclFields, DeclType,
    Declaration, NamedField, SchemaError,
};
use crate::schema::{
    Scalar,
    conforms, decode_record, encode_record, lemma_decode_field_bytes, lemma_prefix_monotone,
    lemma_array_bytes, lemma_record_bytes, prefix_size, total_size, value_conforms, FieldType,
    Value,
};
use crate::typeset::{deduplicated, element_types, lemma_sorted_same_members};

verus! {

/// Round trip: decoding what the encoder wrote, whatever follows it in the
/// buffer, gives back the record, and the encoding is `total_size` bytes long.
pub proof fn lemma_round_trip(tys: Seq<FieldType>, vals: Seq<Value>, order: ByteOrder, rest: Seq<u8>)
    requires
        conforms(tys, vals),
    ensures
        decode_record(tys, encode_record(tys, vals, order) + rest, order) == vals,
        encode_record(tys, vals, order).len() == total_size(tys),
{
    let n = tys.len() as int;
    lemma_record_bytes(tys, vals, order, n);
    let enc = encode_record(tys, vals, order);
    let b = enc + rest;
    assert forall|i: int| 0 <= i < n implies #[trigger] decode_record(tys, b, order)[i] == vals[i] by {
        lemma_prefix_monotone(tys, i + 1, n);
        let p = prefix_size(tys, i) as int;
        let q = (prefix_size(tys, i) + tys[i].size()) as int;
        assert(enc.subrange(p, q) == crate::schema::field_bytes(tys[i], vals[i], order));
        assert(b.subrange(p, q) =~= enc.subrange(p, q));
        assert(value_conforms(vals[i], tys[i]));
        lemma_decode_field_bytes(b, p, tys[i], vals[i], order);
    }
    assert(decode_record(tys, b, order) =~= vals);
}

/// Size agreement: every record of a schema encodes to exactly the schema's
/// size, the count that the size facet returns and that decode consumes.
pub proof fn lemma_size_agreement(tys: Seq<FieldType>, vals: Seq<Value>, order: ByteOrder)
    requires
        conforms(tys, vals),
    ensures
        encode_record(tys, vals, order).len() == total_size(tys),
{
    lemma_record_bytes(tys, vals, order, tys.len() as int);
}

/// Array expansion: an array field of `n` elements of `s` adds `n` times the
/// size of `s` to the record's size, and its element `j` is encoded at the
/// `j`-th element slot of the field, in index order.
pub proof fn lemma_array_expansion(
    tys: Seq<FieldType>,
    vals: Seq<Value>,
    order: ByteOrder,
    i: int,
    s: Scalar,
    n: usize,
    xs: Seq<u128>,
    j: int,
)
    requires
        conforms(tys, vals),
        0 <= i < tys.len(),
        tys[i] == FieldType::Array(s, n),
        vals[i] == Value::Array(xs),
        0 <= j < n,
    ensures
        prefix_size(tys, i + 1) == prefix_size(tys, i) + n * s.width(),
        encode_record(tys, vals, order).subrange(
            prefix_size(tys, i) + j * s.width(),
            prefix_size(tys, i) + j * s.width() + s.width(),
        ) == encode_uint(xs[j] as nat, s.width(), order),
{
    let len = tys.len() as int;
    lemma_record_bytes(tys, vals, order, len);
    lemma_prefix_monotone(tys, i + 1, len);
    assert(value_conforms(vals[i], tys[i]));
    let w = s.width() as int;
    let p = prefix_size(tys, i) as int;
    let enc = encode_record(tys, vals, order);
    let field = enc.subrange(p, p + n * w);
    assert(field == crate::schema::field_bytes(tys[i], vals[i], order));
    lemma_array_bytes(xs, s, order, n as int);
    assert(0 <= j * w && j * w + w <= n * w) by (nonlinear_arith)
        requires 0 <= j < n, w >= 0;
    assert(field.subrange(j * w, j * w + w) == encode_uint(xs[j] as nat, s.width(), order));
    assert(enc.subrange(p + j * w, p + j * w + w) =~= field.subrange(j * w, j * w + w));
}

/// Deduplication determinism: schemas whose fields have the same element types,
/// counted with multiplicity, in any order, have the same deduplicated type
/// set.
pub proof fn lemma_dedup_determinism(a: Seq<Scalar>, ta: Seq<FieldType>, b: Seq<Scalar>, tb: Seq<FieldType>)
    requires
        deduplicated(a, ta),
        deduplicated(b, tb),
        element_types(ta).to_multiset() == element_types(tb).to_multiset(),
    ensures
        a == b,
{
    assert forall|s: Scalar| a.contains(s) <==> b.contains(s) by {
        element_types(ta).to_multiset_ensures();
        element_types(tb).to_multiset_ensures();
        assert(element_types(ta).to_multiset().count(s) == element_types(tb).to_multiset().count(s));
        assert(a.contains(s) <==> element_types(ta).contains(s));
        assert(b.contains(s) <==> element_types(tb).contains(s));
        assert(element_types(ta).contains(s) <==> element_types(ta).to_multiset().count(s) > 0);
        assert(element_types(tb).contains(s) <==> element_types(tb).to_multiset().count(s) > 0);
    }
    lemma_sorted_same_members(a, b);
}

/// First failure: when a record does not fit in `len` bytes, exactly one field
/// is the first that does not fit, and every field before it fits. The
/// fallible facets stop at that field.
pub proof fn lemma_first_failure(tys: Seq<FieldType>, len: nat)
    requires
        total_size(tys) > len,
    ensures
        exists|k: int| #[trigger] first_unfit(tys, len, k),
        forall|k: int, m: int|
            #[trigger] first_unfit(tys, len, k) && #[trigger] first_unfit(tys, len, m) ==> k == m,
        forall|k: int, j: int|
            #[trigger] first_unfit(tys, len, k) && 0 <= j < k ==> #[trigger] prefix_size(tys, j + 1)
                <= len,
{
    let n = tys.len() as int;
    let k = choose_first(tys, len, n);
    assert(first_unfit(tys, len, k));
    assert forall|k: int, m: int|
        #[trigger] first_unfit(tys, len, k) && #[trigger] first_unfit(tys, len, m) implies k == m by {
        if k < m {
            lemma_prefix_monotone(tys, k + 1, m);
        } else if m < k {
            lemma_prefix_monotone(tys, m + 1, k);
        }
    }
    assert forall|k: int, j: int|
        #[trigger] first_unfit(tys, len, k) && 0 <= j < k implies #[trigger] prefix_size(tys, j + 1)
            <= len by {
        lemma_prefix_monotone(tys, j + 1, k);
    }
}

/// The first field among the first `i` that does not fit, where they do not.
proof fn choose_first(tys: Seq<FieldType>, len: nat, i: int) -> (k: int)
    requires
        0 <= i <= tys.len(),
        prefix_size(tys, i) > len,
    ensures
        first_unfit(tys, len, k),
        k < i,
    decreases i,
{
    if prefix_size(tys, i - 1) > len {
        choose_first(tys, len, i - 1)
    } else {
        i - 1
    }
}

/// Schema rejection: an enum or a union, and a struct without named fields,
/// have no schema, so no facet can be derived for them.
pub proof fn lemma_schema_rejection(d: Declaration)
    ensures
        d.data is Enum || d.data is Union ==> schema_of(d) == Err::<Seq<FieldType>, SchemaError>(
            SchemaError::NotAStruct,
        ),
        (d.data matches DeclData::Struct(f) && !(f is Named)) ==> schema_of(d) == Err::<
            Seq<FieldType>,
            SchemaError,
        >(SchemaError::UnnamedFields),
{
}

/// Schema rejection: a struct with an array field whose length is not an
/// integer literal has no schema, so no facet can be derived for it.
pub proof fn lemma_rejects_non_literal_length(d: Declaration, fs: Vec<NamedField>, i: int)
    requires
        d.data == DeclData::Struct(DeclFields::Named(fs)),
        0 <= i < fs@.len(),
        fs@[i].ty matches DeclType::Array(_, ArrayLen::Expr(_)),
    ensures
        schema_of(d) is Err,
{
    if resolve_prefix(fs@, i) is Err {
        lemma_resolve_err_stays(fs@, i, i + 1);
    }
    assert(resolve_prefix(fs@, i + 1) is Err);
    lemma_resolve_err_stays(fs@, i + 1, fs@.len() as int);
}

/// A type written for a field that resolves: a scalar, or an array of one
/// whose length is an integer literal.
pub open spec fn modelled(t: DeclType) -> bool {
    match t {
        DeclType::Named(n) => scalar_named(n@) is Some,
        DeclType::Array(elem, len) => len is Literal && match *elem {
            DeclType::Named(n) => scalar_named(n@) is Some,
            _ => false,
        },
        DeclType::Other(_) => false,
    }
}

proof fn lemma_modelled_prefix(fs: Seq<NamedField>, i: int)
    requires
        0 <= i <= fs.len(),
        forall|j: int| 0 <= j < fs.len() ==> modelled(#[trigger] fs[j].ty),
    ensures
        resolve_prefix(fs, i) is Ok,
    decreases i,
{
    if i > 0 {
        lemma_modelled_prefix(fs, i - 1);
        assert(modelled(fs[i - 1].ty));
    }
}

/// Schema acceptance: a struct whose fields are all named, with scalar types
/// or arrays of them with literal lengths, has a schema unless its size does
/// not fit in `usize`; every derive then returns its facet.
pub proof fn lemma_schema_accepted(d: Declaration, fs: Vec<NamedField>)
    requires
        d.data == DeclData::Struct(DeclFields::Named(fs)),
        forall|j: int| 0 <= j < fs@.len() ==> modelled(#[trigger] fs@[j].ty),
    ensures
        schema_of(d) is Ok || schema_of(d) == Err::<Seq<FieldType>, SchemaError>(
            SchemaError::TooLarge,
        ),
{
    lemma_modelled_prefix(fs@, fs@.len() as int);
}

} // verus!
