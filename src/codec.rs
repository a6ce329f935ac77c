//! The codec facets that the derives bind to a record schema.
use vstd::pervasive::unreached;
use vstd::prelude::*;

use crate::bytes::ByteOrder;
use crate::runtime::{cread_scalar, cwrite_scalar, read_scalar, read_scalars, write_scalar};
use crate::bytes::{encode_uint, lemma_encode_len};
use crate::declaration::{describes, record_schema, schema_of, Declaration, SchemaError};
use crate::typeset::{deduplicated, unique_field_types};
use crate::schema::{
    array_bytes, conforms, encode_record, field_bytes, fits, lemma_array_bytes, lemma_field_bytes_len,
    lemma_decode_record_conforms, lemma_record_bytes, record_bytes, uint_at, value_conforms, decode_field, decode_record, lemma_prefix_monotone, prefix_size, total_size, values_view, FieldType,
    FieldValue, RecordSchema, Scalar, Value,
};

verus! {

/// Fallible decode: reads a record from a byte buffer.
#[derive(Clone, Debug)]
pub struct Pread {
    pub record: RecordSchema,
    /// The element types whose decode the codec relies on, one each, ordered
    /// by signature.
    pub bounds: Vec<Scalar>,
}

impl Pread {
    pub open spec fn wf(&self) -> bool {
        self.record.wf()
    }

    /// Reads the fields in layout order from offset zero. A scalar field is one
    /// read; an array field is one bulk read of all its elements. The first
    /// read that fails ends the decode with its error.
    pub fn try_from_ctx(&self, src: &[u8], ctx: ByteOrder) -> (r: Result<
        (Vec<FieldValue>, usize),
        scroll::Error,
    >)
        requires
            self.wf(),
        ensures
            r is Ok <==> total_size(self.record.types()) <= src@.len(),
            r is Ok ==> values_view(r->Ok_0.0@) == decode_record(self.record.types(), src@, ctx),
            r is Ok ==> r->Ok_0.1 == total_size(self.record.types()),
            r is Ok ==> conforms(self.record.types(), values_view(r->Ok_0.0@)),
    {
        let ghost tys = self.record.types();
        let n = self.record.fields.len();
        let mut offset: usize = 0;
        let mut vals: Vec<FieldValue> = Vec::new();
        let mut i: usize = 0;
        while i < n
            invariant
                self.wf(),
                tys == self.record.types(),
                n == tys.len(),
                0 <= i <= n,
                offset == prefix_size(tys, i as int),
                offset <= src@.len(),
                vals@.len() == i,
                forall|j: int|
                    0 <= j < i ==> (#[trigger] vals@[j])@ == decode_field(
                        src@,
                        prefix_size(tys, j) as int,
                        tys[j],
                        ctx,
                    ),
            decreases n - i,
        {
            proof {
                lemma_prefix_monotone(tys, i + 1, n as int);
            }
            let ty = self.record.fields[i].ty;
            assert(ty == tys[i as int]);
            match ty {
                FieldType::Scalar(s) => {
                    match read_scalar(src, &mut offset, s, ctx) {
                        Ok(x) => vals.push(FieldValue::Scalar(x)),
                        Err(e) => return Err(e),
                    }
                },
                FieldType::Array(s, len) => {
                    let ghost start = offset;
                    match read_scalars(src, &mut offset, s, len, ctx) {
                        Ok(xs) => {
                            proof {
                                let d = decode_field(src@, start as int, ty, ctx);
                                assert(d == Value::Array(xs@)) by {
                                    if let Value::Array(ds) = d {
                                        assert(ds =~= xs@);
                                    }
                                }
                                assert(len == 0 ==> offset == start);
                            }
                            vals.push(FieldValue::Array(xs));
                        },
                        Err(e) => return Err(e),
                    }
                },
            }
            i += 1;
        }
        proof {
            assert(values_view(vals@) =~= decode_record(tys, src@, ctx));
            lemma_decode_record_conforms(tys, src@, ctx);
        }
        Ok((vals, offset))
    }
}

/// Field `k` is the first field that does not fit in `len` bytes: it starts
/// within them and ends beyond them.
pub open spec fn first_unfit(tys: Seq<FieldType>, len: nat, k: int) -> bool {
    0 <= k < tys.len() && prefix_size(tys, k) <= len < prefix_size(tys, k + 1)
}

/// Write `j` of field `k` (`j` counts the elements of an array field; a scalar
/// field has the one write `0`) is the first that does not fit in `len` bytes.
pub open spec fn first_failing_write(tys: Seq<FieldType>, len: nat, k: int, j: int) -> bool {
    let w = tys[k].elem().width();
    &&& first_unfit(tys, len, k)
    &&& 0 <= j
    &&& tys[k] is Scalar ==> j == 0
    &&& prefix_size(tys, k) + j * w <= len < prefix_size(tys, k) + (j + 1) * w
}

/// The bytes of the first `j` elements of an array field; none for a scalar
/// field.
pub open spec fn partial_field_bytes(t: FieldType, v: Value, order: ByteOrder, j: int) -> Seq<u8> {
    match t {
        FieldType::Array(s, _) => match v {
            Value::Array(xs) => array_bytes(xs, s, order, j),
            Value::Scalar(_) => Seq::empty(),
        },
        FieldType::Scalar(_) => Seq::empty(),
    }
}

/// Writing `e` at `p` over a buffer that holds `a` and then what `orig` held
/// from `p` on leaves `a`, `e`, and what `orig` held past `e`.
proof fn lemma_write_after(dst: Seq<u8>, orig: Seq<u8>, a: Seq<u8>, e: Seq<u8>, p: int)
    requires
        dst == a + orig.skip(p),
        a.len() == p,
        0 <= p,
        p + e.len() <= orig.len(),
    ensures
        dst.take(p) + e + dst.skip(p + e.len()) == (a + e) + orig.skip(p + e.len()),
{
    assert(dst.take(p) =~= a);
    assert(dst.skip(p + e.len()) =~= orig.skip(p + e.len()));
    assert(dst.take(p) + e + dst.skip(p + e.len()) =~= (a + e) + orig.skip(p + e.len()));
}

/// Fallible encode: writes a record into a byte buffer.
#[derive(Clone, Debug)]
pub struct Pwrite {
    pub record: RecordSchema,
    /// The element types whose encode the codec relies on, one each, ordered
    /// by signature.
    pub bounds: Vec<Scalar>,
}

impl Pwrite {
    pub open spec fn wf(&self) -> bool {
        self.record.wf()
    }

    /// Writes the fields in layout order from offset zero. A scalar field is
    /// one write; an array field is one write per element in index order. The
    /// first write that fails ends the encode with its error; the fields
    /// before it have then been written.
    pub fn try_into_ctx(&self, value: &Vec<FieldValue>, dst: &mut Vec<u8>, ctx: ByteOrder) -> (r: Result<
        usize,
        scroll::Error,
    >)
        requires
            self.wf(),
            conforms(self.record.types(), values_view(value@)),
        ensures
            r is Ok <==> total_size(self.record.types()) <= old(dst)@.len(),
            final(dst)@.len() == old(dst)@.len(),
            r is Ok ==> r->Ok_0 == total_size(self.record.types()),
            r is Ok ==> final(dst)@ == encode_record(self.record.types(), values_view(value@), ctx)
                + old(dst)@.skip(total_size(self.record.types()) as int),
            r is Err ==> exists|k: int, j: int|
                #[trigger] first_failing_write(self.record.types(), old(dst)@.len(), k, j)
                    && final(dst)@ == record_bytes(self.record.types(), values_view(value@), ctx, k)
                    + partial_field_bytes(
                    self.record.types()[k],
                    values_view(value@)[k],
                    ctx,
                    j,
                ) + old(dst)@.skip(
                    prefix_size(self.record.types(), k) + j * self.record.types()[k].elem().width(),
                ),
    {
        let ghost tys = self.record.types();
        let ghost vals = values_view(value@);
        let ghost old_dst = dst@;
        let n = self.record.fields.len();
        let mut offset: usize = 0;
        let mut i: usize = 0;
        while i < n
            invariant
                self.wf(),
                tys == self.record.types(),
                vals == values_view(value@),
                conforms(tys, vals),
                n == tys.len(),
                0 <= i <= n,
                offset == prefix_size(tys, i as int),
                offset <= old_dst.len(),
                dst@.len() == old_dst.len(),
                old_dst == old(dst)@,
                record_bytes(tys, vals, ctx, i as int).len() == offset,
                dst@ == record_bytes(tys, vals, ctx, i as int) + old_dst.skip(offset as int),
            decreases n - i,
        {
            proof {
                lemma_prefix_monotone(tys, i + 1, n as int);
                assert(value_conforms(vals[i as int], tys[i as int]));
                lemma_field_bytes_len(tys[i as int], vals[i as int], ctx);
            }
            let ghost head = record_bytes(tys, vals, ctx, i as int);
            let ghost start = offset;
            let ty = self.record.fields[i].ty;
            assert(ty == tys[i as int]);
            match ty {
                FieldType::Scalar(s) => {
                    let x = match &value[i] {
                        FieldValue::Scalar(x) => *x,
                        FieldValue::Array(_) => unreached(),
                    };
                    assert(vals[i as int] == Value::Scalar(x));
                    let ghost before = dst@;
                    match write_scalar(dst, x, s, &mut offset, ctx) {
                        Ok(_) => {
                            proof {
                                let e = encode_uint(x as nat, s.width(), ctx);
                                lemma_write_after(before, old_dst, head, e, start as int);
                            }
                        },
                        Err(e) => {
                            proof {
                                assert(first_unfit(tys, old_dst.len(), i as int));
                                assert(total_size(tys) > old_dst.len());
                                assert(first_failing_write(tys, old_dst.len(), i as int, 0));
                                assert(dst@ =~= head + partial_field_bytes(
                                    tys[i as int],
                                    vals[i as int],
                                    ctx,
                                    0,
                                ) + old_dst.skip(start + 0 * s.width()));
                            }
                            return Err(e);
                        },
                    }
                },
                FieldType::Array(s, len) => {
                    let xs = match &value[i] {
                        FieldValue::Array(xs) => xs,
                        FieldValue::Scalar(_) => unreached(),
                    };
                    assert(vals[i as int] == Value::Array(xs@));
                    proof {
                        lemma_array_bytes(xs@, s, ctx, len as int);
                    }
                    let mut j: usize = 0;
                    while j < len
                        invariant
                            self.wf(),
                            conforms(tys, vals),
                            n == tys.len(),
                            i < n,
                            tys[i as int] == FieldType::Array(s, len),
                            vals[i as int] == Value::Array(xs@),
                            xs@.len() == len,
                            value_conforms(vals[i as int], tys[i as int]),
                            0 <= j <= len,
                            head.len() == start,
                            head == record_bytes(tys, vals, ctx, i as int),
                            start == prefix_size(tys, i as int),
                            start + len * s.width() <= total_size(tys),
                            total_size(tys) <= usize::MAX,
                            start <= old_dst.len(),
                            old_dst == old(dst)@,
                            tys == self.record.types(),
                            vals == values_view(value@),
                            prefix_size(tys, i + 1) == start + len * s.width(),
                            offset <= old_dst.len(),
                            dst@.len() == old_dst.len(),
                            offset == start + j * s.width(),
                            array_bytes(xs@, s, ctx, j as int).len() == j * s.width(),
                            dst@ == head + array_bytes(xs@, s, ctx, j as int) + old_dst.skip(
                                offset as int,
                            ),
                        decreases len - j,
                    {
                        proof {
                            assert(offset + s.width() <= start + len * s.width()) by (nonlinear_arith)
                                requires
                                    offset == start + j * s.width(),
                                    j < len,
                            ;
                            lemma_array_bytes(xs@, s, ctx, j + 1);
                            lemma_encode_len(xs@[j as int] as nat, s.width(), ctx);
                            assert(fits(xs@[j as int], s));
                        }
                        let ghost before = dst@;
                        let ghost done = head + array_bytes(xs@, s, ctx, j as int);
                        match write_scalar(dst, xs[j], s, &mut offset, ctx) {
                            Ok(_) => {
                                proof {
                                    let e = encode_uint(xs@[j as int] as nat, s.width(), ctx);
                                    lemma_write_after(
                                        before,
                                        old_dst,
                                        done,
                                        e,
                                        (start + j * s.width()) as int,
                                    );
                                    assert(done + e =~= head + array_bytes(xs@, s, ctx, j + 1));
                                    assert(offset == start + (j + 1) * s.width()) by (nonlinear_arith)
                                        requires
                                            offset == start + j * s.width() + s.width(),
                                    ;
                                }
                            },
                            Err(e) => {
                                proof {
                                    assert(offset + s.width() > old_dst.len());
                                    assert(first_unfit(tys, old_dst.len(), i as int));
                                    assert(total_size(tys) > old_dst.len());
                                    assert(start + (j + 1) * s.width() == offset + s.width())
                                        by (nonlinear_arith)
                                        requires
                                            offset == start + j * s.width(),
                                    ;
                                    assert(first_failing_write(tys, old_dst.len(), i as int, j as int));
                                    assert(dst@ == head + partial_field_bytes(
                                        tys[i as int],
                                        vals[i as int],
                                        ctx,
                                        j as int,
                                    ) + old_dst.skip(start + j * s.width()));
                                }
                                return Err(e);
                            },
                        }
                        j += 1;
                    }
                },
            }
            i += 1;
        }
        proof {
            assert(dst@ =~= encode_record(tys, vals, ctx) + old_dst.skip(offset as int));
        }
        Ok(offset)
    }
}

/// Size: the serialized length of a record, without an instance.
#[derive(Clone, Debug)]
pub struct SizeWith {
    pub record: RecordSchema,
    /// The element types whose size the codec relies on, one each, ordered by
    /// signature.
    pub bounds: Vec<Scalar>,
}

impl SizeWith {
    pub open spec fn wf(&self) -> bool {
        self.record.wf()
    }

    /// The sum over the fields of the element size, times the length for an
    /// array. Unsigned integers have the same size in either byte order.
    pub fn size_with(&self, ctx: &ByteOrder) -> (r: usize)
        requires
            self.wf(),
        ensures
            r == total_size(self.record.types()),
    {
        let ghost tys = self.record.types();
        let n = self.record.fields.len();
        let mut total: usize = 0;
        let mut i: usize = 0;
        while i < n
            invariant
                self.wf(),
                tys == self.record.types(),
                n == tys.len(),
                0 <= i <= n,
                total == prefix_size(tys, i as int),
            decreases n - i,
        {
            proof {
                lemma_prefix_monotone(tys, i + 1, n as int);
            }
            let ty = self.record.fields[i].ty;
            assert(ty == tys[i as int]);
            match ty {
                FieldType::Scalar(s) => {
                    total = total + s.size();
                },
                FieldType::Array(s, len) => {
                    total = total + len * s.size();
                },
            }
            i += 1;
        }
        total
    }
}

/// Indexed decode: reads a record from a buffer that the caller has seen to be
/// large enough.
#[derive(Clone, Debug)]
pub struct IOread {
    pub record: RecordSchema,
    /// The element types whose indexed decode the codec relies on, one each,
    /// ordered by signature.
    pub bounds: Vec<Scalar>,
}

impl IOread {
    pub open spec fn wf(&self) -> bool {
        self.record.wf()
    }

    /// Reads the fields in layout order from offset zero, one value at a time:
    /// an array field element by element in index order. The offset advances
    /// by the element type's size after each value.
    pub fn from_ctx(&self, src: &[u8], ctx: ByteOrder) -> (r: Vec<FieldValue>)
        requires
            self.wf(),
            total_size(self.record.types()) <= src@.len(),
        ensures
            values_view(r@) == decode_record(self.record.types(), src@, ctx),
            conforms(self.record.types(), values_view(r@)),
    {
        let ghost tys = self.record.types();
        let n = self.record.fields.len();
        let mut offset: usize = 0;
        let mut vals: Vec<FieldValue> = Vec::new();
        let mut i: usize = 0;
        while i < n
            invariant
                self.wf(),
                tys == self.record.types(),
                n == tys.len(),
                0 <= i <= n,
                total_size(tys) <= src@.len(),
                offset == prefix_size(tys, i as int),
                vals@.len() == i,
                forall|j: int|
                    0 <= j < i ==> (#[trigger] vals@[j])@ == decode_field(
                        src@,
                        prefix_size(tys, j) as int,
                        tys[j],
                        ctx,
                    ),
            decreases n - i,
        {
            proof {
                lemma_prefix_monotone(tys, i + 1, n as int);
            }
            let ty = self.record.fields[i].ty;
            assert(ty == tys[i as int]);
            match ty {
                FieldType::Scalar(s) => {
                    let x = cread_scalar(src, offset, s, ctx);
                    offset = offset + s.size();
                    vals.push(FieldValue::Scalar(x));
                },
                FieldType::Array(s, len) => {
                    let ghost start = offset;
                    let mut xs: Vec<u128> = Vec::new();
                    let mut j: usize = 0;
                    while j < len
                        invariant
                            0 <= j <= len,
                            start + len * s.width() <= total_size(tys),
                            total_size(tys) <= src@.len(),
                            total_size(tys) <= usize::MAX,
                            offset == start + j * s.width(),
                            xs@.len() == j,
                            forall|k: int|
                                0 <= k < j ==> #[trigger] xs@[k] == uint_at(
                                    src@,
                                    start + k * s.width(),
                                    s,
                                    ctx,
                                ),
                        decreases len - j,
                    {
                        proof {
                            assert(offset + s.width() <= start + len * s.width()) by (nonlinear_arith)
                                requires
                                    offset == start + j * s.width(),
                                    j < len,
                            ;
                        }
                        xs.push(cread_scalar(src, offset, s, ctx));
                        offset = offset + s.size();
                        proof {
                            assert(offset == start + (j + 1) * s.width()) by (nonlinear_arith)
                                requires
                                    offset == start + j * s.width() + s.width(),
                            ;
                        }
                        j += 1;
                    }
                    proof {
                        let d = decode_field(src@, start as int, ty, ctx);
                        if let Value::Array(ds) = d {
                            assert(ds =~= xs@);
                        }
                    }
                    vals.push(FieldValue::Array(xs));
                },
            }
            i += 1;
        }
        proof {
            assert(values_view(vals@) =~= decode_record(tys, src@, ctx));
            lemma_decode_record_conforms(tys, src@, ctx);
        }
        vals
    }
}

/// Indexed encode: writes a record into a buffer that the caller has seen to be
/// large enough.
#[derive(Clone, Debug)]
pub struct IOwrite {
    pub record: RecordSchema,
    /// The element types whose indexed encode the codec relies on, one each,
    /// ordered by signature.
    pub bounds: Vec<Scalar>,
}

impl IOwrite {
    pub open spec fn wf(&self) -> bool {
        self.record.wf()
    }

    /// Writes the fields in layout order from offset zero, one value at a
    /// time: an array field element by element in index order. The offset
    /// advances by the element type's size after each value.
    pub fn into_ctx(&self, value: &Vec<FieldValue>, dst: &mut Vec<u8>, ctx: ByteOrder)
        requires
            self.wf(),
            conforms(self.record.types(), values_view(value@)),
            total_size(self.record.types()) <= old(dst)@.len(),
        ensures
            final(dst)@ == encode_record(self.record.types(), values_view(value@), ctx) + old(
                dst,
            )@.skip(total_size(self.record.types()) as int),
    {
        let ghost tys = self.record.types();
        let ghost vals = values_view(value@);
        let ghost old_dst = dst@;
        let n = self.record.fields.len();
        let mut offset: usize = 0;
        let mut i: usize = 0;
        while i < n
            invariant
                self.wf(),
                tys == self.record.types(),
                vals == values_view(value@),
                conforms(tys, vals),
                n == tys.len(),
                0 <= i <= n,
                total_size(tys) <= old_dst.len(),
                offset == prefix_size(tys, i as int),
                record_bytes(tys, vals, ctx, i as int).len() == offset,
                dst@ == record_bytes(tys, vals, ctx, i as int) + old_dst.skip(offset as int),
            decreases n - i,
        {
            proof {
                lemma_prefix_monotone(tys, i + 1, n as int);
                assert(value_conforms(vals[i as int], tys[i as int]));
                lemma_field_bytes_len(tys[i as int], vals[i as int], ctx);
            }
            let ghost head = record_bytes(tys, vals, ctx, i as int);
            let ghost start = offset;
            let ty = self.record.fields[i].ty;
            assert(ty == tys[i as int]);
            match ty {
                FieldType::Scalar(s) => {
                    let x = match &value[i] {
                        FieldValue::Scalar(x) => *x,
                        FieldValue::Array(_) => unreached(),
                    };
                    assert(vals[i as int] == Value::Scalar(x));
                    let ghost before = dst@;
                    cwrite_scalar(dst, x, s, offset, ctx);
                    offset = offset + s.size();
                    proof {
                        let e = encode_uint(x as nat, s.width(), ctx);
                        lemma_write_after(before, old_dst, head, e, start as int);
                    }
                },
                FieldType::Array(s, len) => {
                    let xs = match &value[i] {
                        FieldValue::Array(xs) => xs,
                        FieldValue::Scalar(_) => unreached(),
                    };
                    assert(vals[i as int] == Value::Array(xs@));
                    proof {
                        lemma_array_bytes(xs@, s, ctx, len as int);
                    }
                    let mut j: usize = 0;
                    while j < len
                        invariant
                            conforms(tys, vals),
                            n == tys.len(),
                            i < n,
                            tys[i as int] == FieldType::Array(s, len),
                            vals[i as int] == Value::Array(xs@),
                            xs@.len() == len,
                            value_conforms(vals[i as int], tys[i as int]),
                            0 <= j <= len,
                            head.len() == start,
                            start + len * s.width() <= total_size(tys),
                            total_size(tys) <= usize::MAX,
                            total_size(tys) <= old_dst.len(),
                            offset == start + j * s.width(),
                            array_bytes(xs@, s, ctx, j as int).len() == j * s.width(),
                            dst@ == head + array_bytes(xs@, s, ctx, j as int) + old_dst.skip(
                                offset as int,
                            ),
                        decreases len - j,
                    {
                        proof {
                            assert(offset + s.width() <= start + len * s.width()) by (nonlinear_arith)
                                requires
                                    offset == start + j * s.width(),
                                    j < len,
                            ;
                            lemma_array_bytes(xs@, s, ctx, j + 1);
                            lemma_encode_len(xs@[j as int] as nat, s.width(), ctx);
                            assert(fits(xs@[j as int], s));
                        }
                        let ghost before = dst@;
                        let ghost done = head + array_bytes(xs@, s, ctx, j as int);
                        cwrite_scalar(dst, xs[j], s, offset, ctx);
                        offset = offset + s.size();
                        proof {
                            let e = encode_uint(xs@[j as int] as nat, s.width(), ctx);
                            lemma_write_after(before, old_dst, done, e, (start + j * s.width()) as int);
                            assert(done + e =~= head + array_bytes(xs@, s, ctx, j + 1));
                            assert(offset == start + (j + 1) * s.width()) by (nonlinear_arith)
                                requires
                                    offset == start + j * s.width() + s.width(),
                            ;
                        }
                        j += 1;
                    }
                },
            }
            i += 1;
        }
        proof {
            assert(dst@ =~= encode_record(tys, vals, ctx) + old_dst.skip(offset as int));
        }
    }
}

/// The fallible decode facet of the record that `decl` declares, or why it has none.
pub fn derive_pread(decl: &Declaration) -> (r: Result<Pread, SchemaError>)
    ensures
        r is Err <==> schema_of(*decl) is Err,
        match r {
            Ok(c) => describes(c.record, *decl) && c.wf() && deduplicated(c.bounds@, c.record.types()),
            Err(e) => schema_of(*decl) == Err::<Seq<FieldType>, SchemaError>(e),
        },
{
    let record = record_schema(decl)?;
    let bounds = unique_field_types(&record);
    Ok(Pread { record, bounds })
}

/// The fallible encode facet of the record that `decl` declares, or why it has none.
pub fn derive_pwrite(decl: &Declaration) -> (r: Result<Pwrite, SchemaError>)
    ensures
        r is Err <==> schema_of(*decl) is Err,
        match r {
            Ok(c) => describes(c.record, *decl) && c.wf() && deduplicated(c.bounds@, c.record.types()),
            Err(e) => schema_of(*decl) == Err::<Seq<FieldType>, SchemaError>(e),
        },
{
    let record = record_schema(decl)?;
    let bounds = unique_field_types(&record);
    Ok(Pwrite { record, bounds })
}

/// The size facet of the record that `decl` declares, or why it has none.
pub fn derive_sizewith(decl: &Declaration) -> (r: Result<SizeWith, SchemaError>)
    ensures
        r is Err <==> schema_of(*decl) is Err,
        match r {
            Ok(c) => describes(c.record, *decl) && c.wf() && deduplicated(c.bounds@, c.record.types()),
            Err(e) => schema_of(*decl) == Err::<Seq<FieldType>, SchemaError>(e),
        },
{
    let record = record_schema(decl)?;
    let bounds = unique_field_types(&record);
    Ok(SizeWith { record, bounds })
}

/// The indexed decode facet of the record that `decl` declares, or why it has none.
pub fn derive_ioread(decl: &Declaration) -> (r: Result<IOread, SchemaError>)
    ensures
        r is Err <==> schema_of(*decl) is Err,
        match r {
            Ok(c) => describes(c.record, *decl) && c.wf() && deduplicated(c.bounds@, c.record.types()),
            Err(e) => schema_of(*decl) == Err::<Seq<FieldType>, SchemaError>(e),
        },
{
    let record = record_schema(decl)?;
    let bounds = unique_field_types(&record);
    Ok(IOread { record, bounds })
}

/// The indexed encode facet of the record that `decl` declares, or why it has none.
pub fn derive_iowrite(decl: &Declaration) -> (r: Result<IOwrite, SchemaError>)
    ensures
        r is Err <==> schema_of(*decl) is Err,
        match r {
            Ok(c) => describes(c.record, *decl) && c.wf() && deduplicated(c.bounds@, c.record.types()),
            Err(e) => schema_of(*decl) == Err::<Seq<FieldType>, SchemaError>(e),
        },
{
    let record = record_schema(decl)?;
    let bounds = unique_field_types(&record);
    Ok(IOwrite { record, bounds })
}

} // verus!
