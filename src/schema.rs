//! Validated record schemas, record values, and their byte layout.
use vstd::prelude::*;

use crate::bytes::{decode_uint, encode_uint, lemma_decode_encode, lemma_decode_fits, lemma_encode_len, pow256, ByteOrder};

verus! {

/// A scalar element type that the buffer runtime reads and writes. A signed
/// value is held as its two's-complement bits, which is also how it is laid
/// out in bytes.
#[derive(Clone, Copy, Debug, PartialEq, Eq, Structural)]
pub enum Scalar {
    U8,
    U16,
    U32,
    U64,
    I8,
    I16,
    I32,
    I64,
    U128,
    I128,
}

impl Scalar {
    /// Bytes that one value of the type occupies.
    pub open spec fn width(self) -> nat {
        match self {
            Scalar::U8 | Scalar::I8 => 1,
            Scalar::U16 | Scalar::I16 => 2,
            Scalar::U32 | Scalar::I32 => 4,
            Scalar::U64 | Scalar::I64 => 8,
            Scalar::U128 | Scalar::I128 => 16,
        }
    }

    /// Position of the type's signature text in lexicographic order: `i128`,
    /// `i16`, `i32`, `i64`, `i8`, `u128`, `u16`, `u32`, `u64`, `u8`.
    pub open spec fn rank(self) -> nat {
        match self {
            Scalar::I128 => 0,
            Scalar::I16 => 1,
            Scalar::I32 => 2,
            Scalar::I64 => 3,
            Scalar::I8 => 4,
            Scalar::U128 => 5,
            Scalar::U16 => 6,
            Scalar::U32 => 7,
            Scalar::U64 => 8,
            Scalar::U8 => 9,
        }
    }

    /// The type's name as it is written in a declaration.
    pub open spec fn signature(self) -> Seq<char> {
        match self {
            Scalar::U8 => seq!['u', '8'],
            Scalar::U16 => seq!['u', '1', '6'],
            Scalar::U32 => seq!['u', '3', '2'],
            Scalar::U64 => seq!['u', '6', '4'],
            Scalar::I8 => seq!['i', '8'],
            Scalar::I16 => seq!['i', '1', '6'],
            Scalar::I32 => seq!['i', '3', '2'],
            Scalar::I64 => seq!['i', '6', '4'],
            Scalar::U128 => seq!['u', '1', '2', '8'],
            Scalar::I128 => seq!['i', '1', '2', '8'],
        }
    }

    /// Byte size of the type, as `core::mem::size_of` gives it.
    pub fn size(self) -> (r: usize)
        ensures
            r as nat == self.width(),
    {
        broadcast use vstd::layout::layout_of_primitives;

        match self {
            Scalar::U8 => core::mem::size_of::<u8>(),
            Scalar::U16 => core::mem::size_of::<u16>(),
            Scalar::U32 => core::mem::size_of::<u32>(),
            Scalar::U64 => core::mem::size_of::<u64>(),
            Scalar::I8 => core::mem::size_of::<i8>(),
            Scalar::I16 => core::mem::size_of::<i16>(),
            Scalar::I32 => core::mem::size_of::<i32>(),
            Scalar::I64 => core::mem::size_of::<i64>(),
            Scalar::U128 => core::mem::size_of::<u128>(),
            Scalar::I128 => core::mem::size_of::<i128>(),
        }
    }

    /// The type's position by signature text.
    pub fn position(self) -> (r: u8)
        ensures
            r as nat == self.rank(),
    {
        match self {
            Scalar::I128 => 0,
            Scalar::I16 => 1,
            Scalar::I32 => 2,
            Scalar::I64 => 3,
            Scalar::I8 => 4,
            Scalar::U128 => 5,
            Scalar::U16 => 6,
            Scalar::U32 => 7,
            Scalar::U64 => 8,
            Scalar::U8 => 9,
        }
    }

    /// Compares by signature text, the order of the deduplicated type set.
    pub fn precedes(self, other: Scalar) -> (r: bool)
        ensures
            r == (self.rank() < other.rank()),
    {
        self.position() < other.position()
    }
}

/// The bound on each scalar's values: two to the power of its bits.
pub proof fn lemma_pow256_width(s: Scalar)
    ensures
        pow256(1) == 0x100,
        pow256(2) == 0x1_0000,
        pow256(4) == 0x1_0000_0000,
        pow256(8) == 0x1_0000_0000_0000_0000,
        pow256(16) == 0x1_0000_0000_0000_0000_0000_0000_0000_0000,
        pow256(s.width()) <= 0x1_0000_0000_0000_0000_0000_0000_0000_0000,
{
    reveal_with_fuel(pow256, 17);
}

pub proof fn lemma_rank_injective(a: Scalar, b: Scalar)
    ensures
        a.rank() == b.rank() <==> a == b,
{
}

/// The type of one field: a scalar, or a fixed array of a scalar.
#[derive(Clone, Copy, Debug, PartialEq, Eq, Structural)]
pub enum FieldType {
    Scalar(Scalar),
    Array(Scalar, usize),
}

impl FieldType {
    /// The element type: an array contributes its element, not itself.
    pub open spec fn elem(self) -> Scalar {
        match self {
            FieldType::Scalar(s) => s,
            FieldType::Array(s, _) => s,
        }
    }

    /// Bytes that the field occupies: `N * width` for an array of `N`.
    pub open spec fn size(self) -> nat {
        match self {
            FieldType::Scalar(s) => s.width(),
            FieldType::Array(s, n) => n as nat * s.width(),
        }
    }

    pub fn element(self) -> (r: Scalar)
        ensures
            r == self.elem(),
    {
        match self {
            FieldType::Scalar(s) => s,
            FieldType::Array(s, _) => s,
        }
    }
}

/// One named field of a record.
#[derive(Clone, Debug)]
pub struct Field {
    pub name: String,
    pub ty: FieldType,
}

/// A record's name and its fields in layout order.
#[derive(Clone, Debug)]
pub struct RecordSchema {
    pub name: String,
    pub fields: Vec<Field>,
}

/// Offset of field `i`: the sizes of the fields before it, added.
pub open spec fn prefix_size(tys: Seq<FieldType>, i: int) -> nat
    decreases i,
{
    if i <= 0 {
        0
    } else {
        prefix_size(tys, i - 1) + tys[i - 1].size()
    }
}

/// The serialized length of a record with field types `tys`.
pub open spec fn total_size(tys: Seq<FieldType>) -> nat {
    prefix_size(tys, tys.len() as int)
}

pub proof fn lemma_prefix_monotone(tys: Seq<FieldType>, i: int, j: int)
    requires
        0 <= i <= j,
    ensures
        prefix_size(tys, i) <= prefix_size(tys, j),
    decreases j - i,
{
    if i < j {
        lemma_prefix_monotone(tys, i, j - 1);
    }
}

impl RecordSchema {
    pub open spec fn types(&self) -> Seq<FieldType> {
        self.fields@.map_values(|f: Field| f.ty)
    }

    /// The serialized length fits in `usize`.
    pub open spec fn wf(&self) -> bool {
        total_size(self.types()) <= usize::MAX
    }
}

/// Model of a field's value.
pub enum Value {
    Scalar(u128),
    Array(Seq<u128>),
}

/// The value of one field: a scalar, or the elements of an array.
#[derive(Clone, Debug, PartialEq, Eq)]
pub enum FieldValue {
    Scalar(u128),
    Array(Vec<u128>),
}

impl View for FieldValue {
    type V = Value;

    open spec fn view(&self) -> Value {
        match self {
            FieldValue::Scalar(x) => Value::Scalar(*x),
            FieldValue::Array(xs) => Value::Array(xs@),
        }
    }
}

pub open spec fn values_view(vals: Seq<FieldValue>) -> Seq<Value> {
    vals.map_values(|v: FieldValue| v@)
}

/// `x` fits in one value of `s`.
pub open spec fn fits(x: u128, s: Scalar) -> bool {
    (x as nat) < pow256(s.width())
}

/// `v` is a value of a field of type `t`.
pub open spec fn value_conforms(v: Value, t: FieldType) -> bool {
    match t {
        FieldType::Scalar(s) => match v {
            Value::Scalar(x) => fits(x, s),
            Value::Array(_) => false,
        },
        FieldType::Array(s, n) => match v {
            Value::Scalar(_) => false,
            Value::Array(xs) => xs.len() == n as nat && forall|j: int|
                0 <= j < xs.len() ==> #[trigger] fits(xs[j], s),
        },
    }
}

/// `vals` is a record of field types `tys`.
pub open spec fn conforms(tys: Seq<FieldType>, vals: Seq<Value>) -> bool {
    &&& vals.len() == tys.len()
    &&& forall|i: int| 0 <= i < tys.len() ==> #[trigger] value_conforms(vals[i], tys[i])
}

/// The scalar of type `s` that the bytes at `off` hold.
pub open spec fn uint_at(b: Seq<u8>, off: int, s: Scalar, order: ByteOrder) -> u128 {
    decode_uint(b.subrange(off, off + s.width()), order) as u128
}

/// The value of a field of type `t` whose bytes start at `off`; an array's
/// element `j` starts `j` element widths further.
pub open spec fn decode_field(b: Seq<u8>, off: int, t: FieldType, order: ByteOrder) -> Value {
    match t {
        FieldType::Scalar(s) => Value::Scalar(uint_at(b, off, s, order)),
        FieldType::Array(s, n) => Value::Array(
            Seq::new(n as nat, |j: int| uint_at(b, off + j * s.width(), s, order)),
        ),
    }
}

/// The record that the bytes `b` hold: each field read at its offset.
pub open spec fn decode_record(tys: Seq<FieldType>, b: Seq<u8>, order: ByteOrder) -> Seq<Value> {
    Seq::new(tys.len(), |i: int| decode_field(b, prefix_size(tys, i) as int, tys[i], order))
}

/// The bytes of the first `k` elements of `xs`, in index order.
pub open spec fn array_bytes(xs: Seq<u128>, s: Scalar, order: ByteOrder, k: int) -> Seq<u8>
    decreases k,
{
    if k <= 0 {
        Seq::empty()
    } else {
        array_bytes(xs, s, order, k - 1) + encode_uint(xs[k - 1] as nat, s.width(), order)
    }
}

/// The bytes of a field of type `t` holding `v`.
pub open spec fn field_bytes(t: FieldType, v: Value, order: ByteOrder) -> Seq<u8> {
    match t {
        FieldType::Scalar(s) => match v {
            Value::Scalar(x) => encode_uint(x as nat, s.width(), order),
            Value::Array(_) => Seq::empty(),
        },
        FieldType::Array(s, n) => match v {
            Value::Scalar(_) => Seq::empty(),
            Value::Array(xs) => array_bytes(xs, s, order, n as int),
        },
    }
}

/// The bytes of the first `i` fields of a record, in field order.
pub open spec fn record_bytes(tys: Seq<FieldType>, vals: Seq<Value>, order: ByteOrder, i: int) -> Seq<u8>
    decreases i,
{
    if i <= 0 {
        Seq::empty()
    } else {
        record_bytes(tys, vals, order, i - 1) + field_bytes(tys[i - 1], vals[i - 1], order)
    }
}

/// The bytes of a whole record.
pub open spec fn encode_record(tys: Seq<FieldType>, vals: Seq<Value>, order: ByteOrder) -> Seq<u8> {
    record_bytes(tys, vals, order, tys.len() as int)
}

pub proof fn lemma_array_bytes(xs: Seq<u128>, s: Scalar, order: ByteOrder, k: int)
    requires
        0 <= k <= xs.len(),
    ensures
        array_bytes(xs, s, order, k).len() == k * s.width(),
        forall|j: int|
            0 <= j < k ==> (#[trigger] array_bytes(xs, s, order, k).subrange(
                j * s.width(),
                j * s.width() + s.width(),
            )) == encode_uint(xs[j] as nat, s.width(), order),
    decreases k,
{
    let w = s.width() as int;
    if k > 0 {
        lemma_array_bytes(xs, s, order, k - 1);
        lemma_encode_len(xs[k - 1] as nat, s.width(), order);
        let a = array_bytes(xs, s, order, k - 1);
        let e = encode_uint(xs[k - 1] as nat, s.width(), order);
        assert((k - 1) * w + w == k * w) by (nonlinear_arith);
        assert forall|j: int| 0 <= j < k implies (#[trigger] array_bytes(xs, s, order, k).subrange(
            j * w,
            j * w + w,
        )) == encode_uint(xs[j] as nat, s.width(), order) by {
            if j < k - 1 {
                assert(j * w + w <= (k - 1) * w) by (nonlinear_arith)
                    requires j < k - 1, w >= 0;
                assert(0 <= j * w) by (nonlinear_arith)
                    requires j >= 0, w >= 0;
                assert((a + e).subrange(j * w, j * w + w) =~= a.subrange(j * w, j * w + w));
            } else {
                assert((a + e).subrange(j * w, j * w + w) =~= e);
            }
        }
    }
}

pub proof fn lemma_field_bytes_len(t: FieldType, v: Value, order: ByteOrder)
    requires
        value_conforms(v, t),
    ensures
        field_bytes(t, v, order).len() == t.size(),
{
    match t {
        FieldType::Scalar(s) => {
            if let Value::Scalar(x) = v {
                lemma_encode_len(x as nat, s.width(), order);
            }
        },
        FieldType::Array(s, n) => {
            if let Value::Array(xs) = v {
                lemma_array_bytes(xs, s, order, n as int);
            }
        },
    }
}

/// The first `i` fields of a record encode to `prefix_size(tys, i)` bytes, and
/// each of them stands at its offset.
pub proof fn lemma_record_bytes(tys: Seq<FieldType>, vals: Seq<Value>, order: ByteOrder, i: int)
    requires
        conforms(tys, vals),
        0 <= i <= tys.len(),
    ensures
        record_bytes(tys, vals, order, i).len() == prefix_size(tys, i),
        forall|j: int|
            0 <= j < i ==> (#[trigger] record_bytes(tys, vals, order, i).subrange(
                prefix_size(tys, j) as int,
                (prefix_size(tys, j) + tys[j].size()) as int,
            )) == field_bytes(tys[j], vals[j], order),
    decreases i,
{
    if i > 0 {
        lemma_record_bytes(tys, vals, order, i - 1);
        assert(value_conforms(vals[i - 1], tys[i - 1]));
        lemma_field_bytes_len(tys[i - 1], vals[i - 1], order);
        let a = record_bytes(tys, vals, order, i - 1);
        let e = field_bytes(tys[i - 1], vals[i - 1], order);
        assert forall|j: int| 0 <= j < i implies (#[trigger] record_bytes(tys, vals, order, i).subrange(
            prefix_size(tys, j) as int,
            (prefix_size(tys, j) + tys[j].size()) as int,
        )) == field_bytes(tys[j], vals[j], order) by {
            if j < i - 1 {
                lemma_prefix_monotone(tys, j + 1, i - 1);
                assert((a + e).subrange(prefix_size(tys, j) as int, (prefix_size(tys, j) + tys[j].size()) as int)
                    =~= a.subrange(prefix_size(tys, j) as int, (prefix_size(tys, j) + tys[j].size()) as int));
            } else {
                assert((a + e).subrange(prefix_size(tys, j) as int, (prefix_size(tys, j) + tys[j].size()) as int)
                    =~= e);
            }
        }
    }
}

/// Reading a field back from the bytes it was written as gives its value.
pub proof fn lemma_decode_field_bytes(b: Seq<u8>, off: int, t: FieldType, v: Value, order: ByteOrder)
    requires
        value_conforms(v, t),
        0 <= off,
        off + t.size() <= b.len(),
        b.subrange(off, off + t.size()) == field_bytes(t, v, order),
    ensures
        decode_field(b, off, t, order) == v,
{
    match t {
        FieldType::Scalar(s) => {
            if let Value::Scalar(x) = v {
                lemma_decode_encode(x as nat, s.width(), order);
            }
        },
        FieldType::Array(s, n) => {
            if let Value::Array(xs) = v {
                let w = s.width() as int;
                lemma_array_bytes(xs, s, order, n as int);
                let d = Seq::new(n as nat, |j: int| uint_at(b, off + j * w, s, order));
                assert forall|j: int| 0 <= j < n implies d[j] == xs[j] by {
                    assert(fits(xs[j], s));
                    assert(0 <= j * w && j * w + w <= n * w) by (nonlinear_arith)
                        requires 0 <= j < n, w >= 0;
                    let inner = array_bytes(xs, s, order, n as int).subrange(j * w, j * w + w);
                    assert(b.subrange(off + j * w, off + j * w + w) =~= inner);
                    lemma_decode_encode(xs[j] as nat, s.width(), order);
                }
                assert(d =~= xs);
            }
        },
    }
}

/// A decoded value is a value of its field's type.
pub proof fn lemma_decode_field_conforms(b: Seq<u8>, off: int, t: FieldType, order: ByteOrder)
    requires
        0 <= off,
        off + t.size() <= b.len(),
    ensures
        value_conforms(decode_field(b, off, t, order), t),
{
    match t {
        FieldType::Scalar(s) => {
            lemma_decode_fits(b.subrange(off, off + s.width()), order);
            lemma_pow256_width(s);
        },
        FieldType::Array(s, n) => {
            let w = s.width() as int;
            assert forall|j: int| 0 <= j < n implies #[trigger] fits(
                uint_at(b, off + j * w, s, order),
                s,
            ) by {
                assert(0 <= j * w && j * w + w <= n * w) by (nonlinear_arith)
                    requires 0 <= j < n, w >= 0;
                lemma_decode_fits(b.subrange(off + j * w, off + j * w + w), order);
                lemma_pow256_width(s);
            }
        },
    }
}

/// A record decoded from a buffer that holds it is a record of its schema, so
/// it can be encoded again.
pub proof fn lemma_decode_record_conforms(tys: Seq<FieldType>, b: Seq<u8>, order: ByteOrder)
    requires
        total_size(tys) <= b.len(),
    ensures
        conforms(tys, decode_record(tys, b, order)),
{
    let n = tys.len() as int;
    assert forall|i: int| 0 <= i < n implies #[trigger] value_conforms(
        decode_record(tys, b, order)[i],
        tys[i],
    ) by {
        lemma_prefix_monotone(tys, i + 1, n);
        lemma_decode_field_conforms(b, prefix_size(tys, i) as int, tys[i], order);
    }
}

} // verus!
