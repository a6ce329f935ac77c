//! Record declarations as a front-end reports them, and their validation
//! into record schemas.
use vstd::prelude::*;

use crate::schema::{lemma_prefix_monotone, prefix_size, total_size, Field, FieldType, RecordSchema, Scalar};

verus! {

/// The length of an array type as written.
#[derive(Clone, Debug)]
pub enum ArrayLen {
    /// An integer literal.
    Literal(usize),
    /// Any other expression, in its source text.
    Expr(String),
}

/// A field's type as written.
#[derive(Debug)]
pub enum DeclType {
    /// A type named by a path, such as `u16`.
    Named(String),
    /// A fixed-length array.
    Array(Box<DeclType>, ArrayLen),
    /// Any other type, in its source text.
    Other(String),
}

/// A named field of a declaration.
#[derive(Debug)]
pub struct NamedField {
    pub name: String,
    pub ty: DeclType,
}

/// The fields of a struct declaration.
#[derive(Debug)]
pub enum DeclFields {
    Named(Vec<NamedField>),
    Unnamed(Vec<DeclType>),
    Unit,
}

/// What a declaration declares.
#[derive(Debug)]
pub enum DeclData {
    Struct(DeclFields),
    Enum,
    Union,
}

/// A type declaration that a codec is asked for.
#[derive(Debug)]
pub struct Declaration {
    pub name: String,
    pub data: DeclData,
}

/// Why a declaration has no codec.
#[derive(Clone, Copy, Debug, PartialEq, Eq, Structural)]
pub enum SchemaError {
    /// It declares an enum or a union.
    NotAStruct,
    /// It is a tuple struct or a unit struct.
    UnnamedFields,
    /// The field at this index is an array whose length is not an integer
    /// literal.
    BadArrayLength(usize),
    /// The field at this index has a type that the library has no model of: a
    /// float, or a type whose codec is its own impl of scroll's traits (another
    /// record among them).
    UnsupportedType(usize),
    /// The serialized length does not fit in `usize`.
    TooLarge,
}

/// The scalar type whose signature is `name`.
pub open spec fn scalar_named(name: Seq<char>) -> Option<Scalar> {
    if name == Scalar::U8.signature() {
        Some(Scalar::U8)
    } else if name == Scalar::U16.signature() {
        Some(Scalar::U16)
    } else if name == Scalar::U32.signature() {
        Some(Scalar::U32)
    } else if name == Scalar::U64.signature() {
        Some(Scalar::U64)
    } else if name == Scalar::I8.signature() {
        Some(Scalar::I8)
    } else if name == Scalar::I16.signature() {
        Some(Scalar::I16)
    } else if name == Scalar::I32.signature() {
        Some(Scalar::I32)
    } else if name == Scalar::I64.signature() {
        Some(Scalar::I64)
    } else if name == Scalar::U128.signature() {
        Some(Scalar::U128)
    } else if name == Scalar::I128.signature() {
        Some(Scalar::I128)
    } else {
        None
    }
}

/// The field type that `t`, written for field `i`, resolves to. An array's
/// length is checked before its element type.
pub open spec fn resolve_type(t: DeclType, i: usize) -> Result<FieldType, SchemaError> {
    match t {
        DeclType::Named(n) => match scalar_named(n@) {
            Some(s) => Ok(FieldType::Scalar(s)),
            None => Err(SchemaError::UnsupportedType(i)),
        },
        DeclType::Array(elem, len) => match len {
            ArrayLen::Literal(k) => match *elem {
                DeclType::Named(n) => match scalar_named(n@) {
                    Some(s) => Ok(FieldType::Array(s, k)),
                    None => Err(SchemaError::UnsupportedType(i)),
                },
                _ => Err(SchemaError::UnsupportedType(i)),
            },
            ArrayLen::Expr(_) => Err(SchemaError::BadArrayLength(i)),
        },
        DeclType::Other(_) => Err(SchemaError::UnsupportedType(i)),
    }
}

/// The types of the first `i` fields, or the error of the first of them that
/// does not resolve.
pub open spec fn resolve_prefix(fs: Seq<NamedField>, i: int) -> Result<Seq<FieldType>, SchemaError>
    decreases i,
{
    if i <= 0 {
        Ok(Seq::empty())
    } else {
        match resolve_prefix(fs, i - 1) {
            Err(e) => Err(e),
            Ok(tys) => match resolve_type(fs[i - 1].ty, (i - 1) as usize) {
                Err(e) => Err(e),
                Ok(t) => Ok(tys.push(t)),
            },
        }
    }
}

/// The field types of the schema that `d` describes, or why it has none.
pub open spec fn schema_of(d: Declaration) -> Result<Seq<FieldType>, SchemaError> {
    match d.data {
        DeclData::Struct(fields) => match fields {
            DeclFields::Named(fs) => match resolve_prefix(fs@, fs@.len() as int) {
                Ok(tys) => if total_size(tys) <= usize::MAX {
                    Ok(tys)
                } else {
                    Err(SchemaError::TooLarge)
                },
                Err(e) => Err(e),
            },
            _ => Err(SchemaError::UnnamedFields),
        },
        _ => Err(SchemaError::NotAStruct),
    }
}

/// `s` is the schema of `d`: same name, same field names, and the field types
/// that `d`'s fields resolve to.
pub open spec fn describes(s: RecordSchema, d: Declaration) -> bool {
    &&& schema_of(d) == Ok::<Seq<FieldType>, SchemaError>(s.types())
    &&& s.name@ == d.name@
    &&& d.data matches DeclData::Struct(DeclFields::Named(fs)) && s.fields@.len() == fs@.len()
        && forall|i: int| 0 <= i < fs@.len() ==> (#[trigger] s.fields@[i]).name@ == fs@[i].name@
}

pub proof fn lemma_resolve_err_stays(fs: Seq<NamedField>, i: int, j: int)
    requires
        0 <= i <= j,
        resolve_prefix(fs, i) is Err,
    ensures
        resolve_prefix(fs, j) == resolve_prefix(fs, i),
    decreases j - i,
{
    if i < j {
        lemma_resolve_err_stays(fs, i, j - 1);
    }
}

proof fn lemma_two_chars(a: char, b: char)
    ensures
        forall|c: char, d: char| #[trigger] seq![c, d] == seq![a, b] <==> (c == a && d == b),
{
    assert forall|c: char, d: char| #[trigger] seq![c, d] == seq![a, b] <==> (c == a && d == b) by {
        if seq![c, d] == seq![a, b] {
            assert(seq![c, d][0] == seq![a, b][0]);
            assert(seq![c, d][1] == seq![a, b][1]);
        }
        if c == a && d == b {
            assert(seq![c, d] =~= seq![a, b]);
        }
    }
}

proof fn lemma_three_chars(a: char, b: char, e: char)
    ensures
        forall|c: char, d: char, f: char| #[trigger] seq![c, d, f] == seq![a, b, e] <==> (c == a && d
            == b && f == e),
{
    assert forall|c: char, d: char, f: char| #[trigger] seq![c, d, f] == seq![a, b, e] <==> (c == a
        && d == b && f == e) by {
        if seq![c, d, f] == seq![a, b, e] {
            assert(seq![c, d, f][0] == seq![a, b, e][0]);
            assert(seq![c, d, f][1] == seq![a, b, e][1]);
            assert(seq![c, d, f][2] == seq![a, b, e][2]);
        }
        if c == a && d == b && f == e {
            assert(seq![c, d, f] =~= seq![a, b, e]);
        }
    }
}

proof fn lemma_four_chars(a: char, b: char, e: char, g: char)
    ensures
        forall|c: char, d: char, f: char, h: char| #[trigger] seq![c, d, f, h] == seq![a, b, e, g]
            <==> (c == a && d == b && f == e && h == g),
{
    assert forall|c: char, d: char, f: char, h: char| #[trigger] seq![c, d, f, h] == seq![a, b, e, g]
        <==> (c == a && d == b && f == e && h == g) by {
        if seq![c, d, f, h] == seq![a, b, e, g] {
            assert(seq![c, d, f, h][0] == seq![a, b, e, g][0]);
            assert(seq![c, d, f, h][1] == seq![a, b, e, g][1]);
            assert(seq![c, d, f, h][2] == seq![a, b, e, g][2]);
            assert(seq![c, d, f, h][3] == seq![a, b, e, g][3]);
        }
        if c == a && d == b && f == e && h == g {
            assert(seq![c, d, f, h] =~= seq![a, b, e, g]);
        }
    }
}

/// The scalar type whose signature is `name`, if any.
pub fn scalar_from_name(name: &str) -> (r: Option<Scalar>)
    ensures
        r == scalar_named(name@),
{
    let len = name.unicode_len();
    if len == 2 {
        let a = name.get_char(0);
        let b = name.get_char(1);
        proof {
            assert(name@ =~= seq![a, b]);
            lemma_two_chars(a, b);
        }
        if b != '8' {
            return None;
        }
        if a == 'u' {
            return Some(Scalar::U8);
        }
        if a == 'i' {
            return Some(Scalar::I8);
        }
        return None;
    }
    if len == 3 {
        let a = name.get_char(0);
        let b = name.get_char(1);
        let c = name.get_char(2);
        proof {
            assert(name@ =~= seq![a, b, c]);
            lemma_three_chars(a, b, c);
        }
        let unsigned = a == 'u';
        if !unsigned && a != 'i' {
            return None;
        }
        if b == '1' && c == '6' {
            return Some(if unsigned { Scalar::U16 } else { Scalar::I16 });
        }
        if b == '3' && c == '2' {
            return Some(if unsigned { Scalar::U32 } else { Scalar::I32 });
        }
        if b == '6' && c == '4' {
            return Some(if unsigned { Scalar::U64 } else { Scalar::I64 });
        }
        return None;
    }
    if len == 4 {
        let a = name.get_char(0);
        let b = name.get_char(1);
        let c = name.get_char(2);
        let d = name.get_char(3);
        proof {
            assert(name@ =~= seq![a, b, c, d]);
            lemma_four_chars(a, b, c, d);
        }
        if b != '1' || c != '2' || d != '8' {
            return None;
        }
        if a == 'u' {
            return Some(Scalar::U128);
        }
        if a == 'i' {
            return Some(Scalar::I128);
        }
        return None;
    }
    None
}

/// Resolves the type written for field `i`.
pub fn resolve_field_type(t: &DeclType, i: usize) -> (r: Result<FieldType, SchemaError>)
    ensures
        r == resolve_type(*t, i),
{
    match t {
        DeclType::Named(n) => match scalar_from_name(n.as_str()) {
            Some(s) => Ok(FieldType::Scalar(s)),
            None => Err(SchemaError::UnsupportedType(i)),
        },
        DeclType::Array(elem, len) => match len {
            ArrayLen::Literal(k) => match &**elem {
                DeclType::Named(n) => match scalar_from_name(n.as_str()) {
                    Some(s) => Ok(FieldType::Array(s, *k)),
                    None => Err(SchemaError::UnsupportedType(i)),
                },
                _ => Err(SchemaError::UnsupportedType(i)),
            },
            ArrayLen::Expr(_) => Err(SchemaError::BadArrayLength(i)),
        },
        DeclType::Other(_) => Err(SchemaError::UnsupportedType(i)),
    }
}

/// Validates a declaration into the schema of its fields: a struct with named
/// fields, each an integer of 8 to 128 bits or an array of one with a literal length,
/// whose serialized length fits in `usize`.
pub fn record_schema(decl: &Declaration) -> (r: Result<RecordSchema, SchemaError>)
    ensures
        match r {
            Ok(s) => describes(s, *decl) && s.wf(),
            Err(e) => schema_of(*decl) == Err::<Seq<FieldType>, SchemaError>(e),
        },
{
    let fs = match &decl.data {
        DeclData::Struct(DeclFields::Named(fs)) => fs,
        DeclData::Struct(_) => return Err(SchemaError::UnnamedFields),
        _ => return Err(SchemaError::NotAStruct),
    };
    let n = fs.len();
    let mut fields: Vec<Field> = Vec::new();
    let mut i: usize = 0;
    assert(fields@.map_values(|f: Field| f.ty) =~= Seq::<FieldType>::empty());
    while i < n
        invariant
            decl.data == DeclData::Struct(DeclFields::Named(*fs)),
            n == fs@.len(),
            0 <= i <= n,
            fields@.len() == i,
            resolve_prefix(fs@, i as int) == Ok::<Seq<FieldType>, SchemaError>(
                fields@.map_values(|f: Field| f.ty),
            ),
            forall|j: int| 0 <= j < i ==> (#[trigger] fields@[j]).name@ == fs@[j].name@,
        decreases n - i,
    {
        match resolve_field_type(&fs[i].ty, i) {
            Ok(t) => {
                let ghost prev = fields@;
                fields.push(Field { name: fs[i].name.clone(), ty: t });
                assert(fields@.map_values(|f: Field| f.ty) =~= prev.map_values(|f: Field| f.ty).push(t));
            },
            Err(e) => {
                proof {
                    lemma_resolve_err_stays(fs@, i + 1, n as int);
                }
                return Err(e);
            },
        }
        i += 1;
    }
    let ghost tys = fields@.map_values(|f: Field| f.ty);
    let mut total: usize = 0;
    let mut j: usize = 0;
    while j < n
        invariant
            decl.data == DeclData::Struct(DeclFields::Named(*fs)),
            n == fs@.len(),
            resolve_prefix(fs@, n as int) == Ok::<Seq<FieldType>, SchemaError>(tys),
            n == tys.len(),
            0 <= j <= n,
            tys == fields@.map_values(|f: Field| f.ty),
            total == prefix_size(tys, j as int),
        decreases n - j,
    {
        let add: usize = match fields[j].ty {
            FieldType::Scalar(s) => s.size(),
            FieldType::Array(s, len) => match len.checked_mul(s.size()) {
                Some(m) => m,
                None => {
                    proof {
                        lemma_prefix_monotone(tys, j + 1, n as int);
                    }
                    return Err(SchemaError::TooLarge);
                },
            },
        };
        assert(add == tys[j as int].size());
        match total.checked_add(add) {
            Some(t) => total = t,
            None => {
                proof {
                    lemma_prefix_monotone(tys, j + 1, n as int);
                }
                return Err(SchemaError::TooLarge);
            },
        }
        j += 1;
    }
    Ok(RecordSchema { name: decl.name.clone(), fields })
}

} // verus!
