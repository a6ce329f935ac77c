//! The `scroll` buffer runtime: the primitive reads and writes that the
//! codecs are built from, one item per primitive type.
use vstd::pervasive::unreached;
use vstd::prelude::*;

use scroll::{Cread, Cwrite, Pread, Pwrite};

use crate::bytes::{encode_uint, order_of, ByteOrder};
use crate::schema::{fits, lemma_pow256_width, uint_at, Scalar};

verus! {

/// The single error type of `scroll`'s fallible operations.
#[verifier::external_type_specification]
#[verifier::external_body]
pub struct ExScrollError(scroll::Error);

/// Relies on `Pread::gread_with::<u8>` on a byte slice: it fails unless 1
/// byte remain at `*offset`; else it reads them in the byte order
/// that `Endian::from(little)` names and advances `*offset` past them.
#[verifier::external_body]
pub(crate) fn gread_u8(src: &[u8], offset: &mut usize, little: bool) -> (r: Result<u128, scroll::Error>)
    ensures
        r is Ok <==> *old(offset) + 1 <= src@.len(),
        r is Ok ==> r->Ok_0 == uint_at(src@, *old(offset) as int, Scalar::U8, order_of(little))
            && *final(offset) == *old(offset) + 1,
        r is Err ==> *final(offset) == *old(offset),
{
    src.gread_with::<u8>(offset, scroll::Endian::from(little)).map(u128::from)
}

/// Relies on `Pread::gread_inout_with` over `n` items of `u8`: one
/// `gread_with` per item in index order, stopping at the first failure.
#[verifier::external_body]
pub(crate) fn gread_inout_u8(src: &[u8], offset: &mut usize, n: usize, little: bool) -> (r: Result<
    Vec<u128>,
    scroll::Error,
>)
    requires
        n <= src@.len(),
    ensures
        r is Ok <==> n == 0 || *old(offset) + n * 1 <= src@.len(),
        r is Ok ==> r->Ok_0@.len() == n && *final(offset) == *old(offset) + n * 1,
        r is Ok ==> forall|j: int|
            0 <= j < n ==> r->Ok_0@[j] == #[trigger] uint_at(
                src@,
                *old(offset) + j * 1,
                Scalar::U8,
                order_of(little),
            ),
{
    let mut items = vec![0u8; n];
    src.gread_inout_with(offset, &mut items, scroll::Endian::from(little)).map(
        |()| items.into_iter().map(u128::from).collect(),
    )
}

/// Relies on `Pwrite::gwrite_with::<u8>` on a byte slice: it fails, writing
/// nothing, unless 1 byte remain at `*offset`; else it writes the value in
/// the byte order that `Endian::from(little)` names and advances `*offset`.
#[verifier::external_body]
pub(crate) fn gwrite_u8(dst: &mut Vec<u8>, v: u128, offset: &mut usize, little: bool) -> (r: Result<
    usize,
    scroll::Error,
>)
    requires
        v < 0x100,
    ensures
        r is Ok <==> *old(offset) + 1 <= old(dst)@.len(),
        r is Ok ==> r->Ok_0 == 1 && *final(offset) == *old(offset) + 1,
        r is Ok ==> final(dst)@ == old(dst)@.take(*old(offset) as int) + encode_uint(
            v as nat,
            1,
            order_of(little),
        ) + old(dst)@.skip(*old(offset) + 1),
        r is Err ==> *final(offset) == *old(offset) && final(dst)@ == old(dst)@,
{
    dst.as_mut_slice().gwrite_with(v as u8, offset, scroll::Endian::from(little))
}

/// Relies on `Cread::cread_with::<u8>` on a byte slice, which panics unless
/// 1 byte remain at `offset` and otherwise reads them in the byte
/// order that `Endian::from(little)` names.
#[verifier::external_body]
pub(crate) fn cread_u8(src: &[u8], offset: usize, little: bool) -> (r: u128)
    requires
        offset + 1 <= src@.len(),
    ensures
        r == uint_at(src@, offset as int, Scalar::U8, order_of(little)),
{
    src.cread_with::<u8>(offset, scroll::Endian::from(little)) as u128
}

/// Relies on `Cwrite::cwrite_with::<u8>` on a byte slice, which panics unless
/// 1 byte remain at `offset` and otherwise writes the value there in the byte
/// order that `Endian::from(little)` names.
#[verifier::external_body]
pub(crate) fn cwrite_u8(dst: &mut Vec<u8>, v: u128, offset: usize, little: bool)
    requires
        offset + 1 <= old(dst)@.len(),
        v < 0x100,
    ensures
        final(dst)@ == old(dst)@.take(offset as int) + encode_uint(v as nat, 1, order_of(little))
            + old(dst)@.skip(offset + 1),
{
    dst.as_mut_slice().cwrite_with::<u8>(v as u8, offset, scroll::Endian::from(little))
}

/// Relies on `Pread::gread_with::<u16>` on a byte slice: it fails unless 2
/// bytes remain at `*offset`; else it reads them in the byte order
/// that `Endian::from(little)` names and advances `*offset` past them.
#[verifier::external_body]
pub(crate) fn gread_u16(src: &[u8], offset: &mut usize, little: bool) -> (r: Result<u128, scroll::Error>)
    ensures
        r is Ok <==> *old(offset) + 2 <= src@.len(),
        r is Ok ==> r->Ok_0 == uint_at(src@, *old(offset) as int, Scalar::U16, order_of(little))
            && *final(offset) == *old(offset) + 2,
        r is Err ==> *final(offset) == *old(offset),
{
    src.gread_with::<u16>(offset, scroll::Endian::from(little)).map(u128::from)
}

/// Relies on `Pread::gread_inout_with` over `n` items of `u16`: one
/// `gread_with` per item in index order, stopping at the first failure.
#[verifier::external_body]
pub(crate) fn gread_inout_u16(src: &[u8], offset: &mut usize, n: usize, little: bool) -> (r: Result<
    Vec<u128>,
    scroll::Error,
>)
    requires
        n <= src@.len(),
    ensures
        r is Ok <==> n == 0 || *old(offset) + n * 2 <= src@.len(),
        r is Ok ==> r->Ok_0@.len() == n && *final(offset) == *old(offset) + n * 2,
        r is Ok ==> forall|j: int|
            0 <= j < n ==> r->Ok_0@[j] == #[trigger] uint_at(
                src@,
                *old(offset) + j * 2,
                Scalar::U16,
                order_of(little),
            ),
{
    let mut items = vec![0u16; n];
    src.gread_inout_with(offset, &mut items, scroll::Endian::from(little)).map(
        |()| items.into_iter().map(u128::from).collect(),
    )
}

/// Relies on `Pwrite::gwrite_with::<u16>` on a byte slice: it fails, writing
/// nothing, unless 2 bytes remain at `*offset`; else it writes the value in
/// the byte order that `Endian::from(little)` names and advances `*offset`.
#[verifier::external_body]
pub(crate) fn gwrite_u16(dst: &mut Vec<u8>, v: u128, offset: &mut usize, little: bool) -> (r: Result<
    usize,
    scroll::Error,
>)
    requires
        v < 0x1_0000,
    ensures
        r is Ok <==> *old(offset) + 2 <= old(dst)@.len(),
        r is Ok ==> r->Ok_0 == 2 && *final(offset) == *old(offset) + 2,
        r is Ok ==> final(dst)@ == old(dst)@.take(*old(offset) as int) + encode_uint(
            v as nat,
            2,
            order_of(little),
        ) + old(dst)@.skip(*old(offset) + 2),
        r is Err ==> *final(offset) == *old(offset) && final(dst)@ == old(dst)@,
{
    dst.as_mut_slice().gwrite_with(v as u16, offset, scroll::Endian::from(little))
}

/// Relies on `Cread::cread_with::<u16>` on a byte slice, which panics unless
/// 2 bytes remain at `offset` and otherwise reads them in the byte
/// order that `Endian::from(little)` names.
#[verifier::external_body]
pub(crate) fn cread_u16(src: &[u8], offset: usize, little: bool) -> (r: u128)
    requires
        offset + 2 <= src@.len(),
    ensures
        r == uint_at(src@, offset as int, Scalar::U16, order_of(little)),
{
    src.cread_with::<u16>(offset, scroll::Endian::from(little)) as u128
}

/// Relies on `Cwrite::cwrite_with::<u16>` on a byte slice, which panics unless
/// 2 bytes remain at `offset` and otherwise writes the value there in the byte
/// order that `Endian::from(little)` names.
#[verifier::external_body]
pub(crate) fn cwrite_u16(dst: &mut Vec<u8>, v: u128, offset: usize, little: bool)
    requires
        offset + 2 <= old(dst)@.len(),
        v < 0x1_0000,
    ensures
        final(dst)@ == old(dst)@.take(offset as int) + encode_uint(v as nat, 2, order_of(little))
            + old(dst)@.skip(offset + 2),
{
    dst.as_mut_slice().cwrite_with::<u16>(v as u16, offset, scroll::Endian::from(little))
}

/// Relies on `Pread::gread_with::<u32>` on a byte slice: it fails unless 4
/// bytes remain at `*offset`; else it reads them in the byte order
/// that `Endian::from(little)` names and advances `*offset` past them.
#[verifier::external_body]
pub(crate) fn gread_u32(src: &[u8], offset: &mut usize, little: bool) -> (r: Result<u128, scroll::Error>)
    ensures
        r is Ok <==> *old(offset) + 4 <= src@.len(),
        r is Ok ==> r->Ok_0 == uint_at(src@, *old(offset) as int, Scalar::U32, order_of(little))
            && *final(offset) == *old(offset) + 4,
        r is Err ==> *final(offset) == *old(offset),
{
    src.gread_with::<u32>(offset, scroll::Endian::from(little)).map(u128::from)
}

/// Relies on `Pread::gread_inout_with` over `n` items of `u32`: one
/// `gread_with` per item in index order, stopping at the first failure.
#[verifier::external_body]
pub(crate) fn gread_inout_u32(src: &[u8], offset: &mut usize, n: usize, little: bool) -> (r: Result<
    Vec<u128>,
    scroll::Error,
>)
    requires
        n <= src@.len(),
    ensures
        r is Ok <==> n == 0 || *old(offset) + n * 4 <= src@.len(),
        r is Ok ==> r->Ok_0@.len() == n && *final(offset) == *old(offset) + n * 4,
        r is Ok ==> forall|j: int|
            0 <= j < n ==> r->Ok_0@[j] == #[trigger] uint_at(
                src@,
                *old(offset) + j * 4,
                Scalar::U32,
                order_of(little),
            ),
{
    let mut items = vec![0u32; n];
    src.gread_inout_with(offset, &mut items, scroll::Endian::from(little)).map(
        |()| items.into_iter().map(u128::from).collect(),
    )
}

/// Relies on `Pwrite::gwrite_with::<u32>` on a byte slice: it fails, writing
/// nothing, unless 4 bytes remain at `*offset`; else it writes the value in
/// the byte order that `Endian::from(little)` names and advances `*offset`.
#[verifier::external_body]
pub(crate) fn gwrite_u32(dst: &mut Vec<u8>, v: u128, offset: &mut usize, little: bool) -> (r: Result<
    usize,
    scroll::Error,
>)
    requires
        v < 0x1_0000_0000,
    ensures
        r is Ok <==> *old(offset) + 4 <= old(dst)@.len(),
        r is Ok ==> r->Ok_0 == 4 && *final(offset) == *old(offset) + 4,
        r is Ok ==> final(dst)@ == old(dst)@.take(*old(offset) as int) + encode_uint(
            v as nat,
            4,
            order_of(little),
        ) + old(dst)@.skip(*old(offset) + 4),
        r is Err ==> *final(offset) == *old(offset) && final(dst)@ == old(dst)@,
{
    dst.as_mut_slice().gwrite_with(v as u32, offset, scroll::Endian::from(little))
}

/// Relies on `Cread::cread_with::<u32>` on a byte slice, which panics unless
/// 4 bytes remain at `offset` and otherwise reads them in the byte
/// order that `Endian::from(little)` names.
#[verifier::external_body]
pub(crate) fn cread_u32(src: &[u8], offset: usize, little: bool) -> (r: u128)
    requires
        offset + 4 <= src@.len(),
    ensures
        r == uint_at(src@, offset as int, Scalar::U32, order_of(little)),
{
    src.cread_with::<u32>(offset, scroll::Endian::from(little)) as u128
}

/// Relies on `Cwrite::cwrite_with::<u32>` on a byte slice, which panics unless
/// 4 bytes remain at `offset` and otherwise writes the value there in the byte
/// order that `Endian::from(little)` names.
#[verifier::external_body]
pub(crate) fn cwrite_u32(dst: &mut Vec<u8>, v: u128, offset: usize, little: bool)
    requires
        offset + 4 <= old(dst)@.len(),
        v < 0x1_0000_0000,
    ensures
        final(dst)@ == old(dst)@.take(offset as int) + encode_uint(v as nat, 4, order_of(little))
            + old(dst)@.skip(offset + 4),
{
    dst.as_mut_slice().cwrite_with::<u32>(v as u32, offset, scroll::Endian::from(little))
}

/// Relies on `Pread::gread_with::<u64>` on a byte slice: it fails unless 8
/// bytes remain at `*offset`; else it reads them in the byte order
/// that `Endian::from(little)` names and advances `*offset` past them.
#[verifier::external_body]
pub(crate) fn gread_u64(src: &[u8], offset: &mut usize, little: bool) -> (r: Result<u128, scroll::Error>)
    ensures
        r is Ok <==> *old(offset) + 8 <= src@.len(),
        r is Ok ==> r->Ok_0 == uint_at(src@, *old(offset) as int, Scalar::U64, order_of(little))
            && *final(offset) == *old(offset) + 8,
        r is Err ==> *final(offset) == *old(offset),
{
    src.gread_with::<u64>(offset, scroll::Endian::from(little)).map(u128::from)
}

/// Relies on `Pread::gread_inout_with` over `n` items of `u64`: one
/// `gread_with` per item in index order, stopping at the first failure.
#[verifier::external_body]
pub(crate) fn gread_inout_u64(src: &[u8], offset: &mut usize, n: usize, little: bool) -> (r: Result<
    Vec<u128>,
    scroll::Error,
>)
    requires
        n <= src@.len(),
    ensures
        r is Ok <==> n == 0 || *old(offset) + n * 8 <= src@.len(),
        r is Ok ==> r->Ok_0@.len() == n && *final(offset) == *old(offset) + n * 8,
        r is Ok ==> forall|j: int|
            0 <= j < n ==> r->Ok_0@[j] == #[trigger] uint_at(
                src@,
                *old(offset) + j * 8,
                Scalar::U64,
                order_of(little),
            ),
{
    let mut items = vec![0u64; n];
    src.gread_inout_with(offset, &mut items, scroll::Endian::from(little)).map(
        |()| items.into_iter().map(u128::from).collect(),
    )
}

/// Relies on `Pwrite::gwrite_with::<u64>` on a byte slice: it fails, writing
/// nothing, unless 8 bytes remain at `*offset`; else it writes the value in
/// the byte order that `Endian::from(little)` names and advances `*offset`.
#[verifier::external_body]
pub(crate) fn gwrite_u64(dst: &mut Vec<u8>, v: u128, offset: &mut usize, little: bool) -> (r: Result<
    usize,
    scroll::Error,
>)
    requires
        v < 0x1_0000_0000_0000_0000,
    ensures
        r is Ok <==> *old(offset) + 8 <= old(dst)@.len(),
        r is Ok ==> r->Ok_0 == 8 && *final(offset) == *old(offset) + 8,
        r is Ok ==> final(dst)@ == old(dst)@.take(*old(offset) as int) + encode_uint(
            v as nat,
            8,
            order_of(little),
        ) + old(dst)@.skip(*old(offset) + 8),
        r is Err ==> *final(offset) == *old(offset) && final(dst)@ == old(dst)@,
{
    dst.as_mut_slice().gwrite_with(v as u64, offset, scroll::Endian::from(little))
}

/// Relies on `Cread::cread_with::<u64>` on a byte slice, which panics unless
/// 8 bytes remain at `offset` and otherwise reads them in the byte
/// order that `Endian::from(little)` names.
#[verifier::external_body]
pub(crate) fn cread_u64(src: &[u8], offset: usize, little: bool) -> (r: u128)
    requires
        offset + 8 <= src@.len(),
    ensures
        r == uint_at(src@, offset as int, Scalar::U64, order_of(little)),
{
    src.cread_with::<u64>(offset, scroll::Endian::from(little)) as u128
}

/// Relies on `Cwrite::cwrite_with::<u64>` on a byte slice, which panics unless
/// 8 bytes remain at `offset` and otherwise writes the value there in the byte
/// order that `Endian::from(little)` names.
#[verifier::external_body]
pub(crate) fn cwrite_u64(dst: &mut Vec<u8>, v: u128, offset: usize, little: bool)
    requires
        offset + 8 <= old(dst)@.len(),
        v < 0x1_0000_0000_0000_0000,
    ensures
        final(dst)@ == old(dst)@.take(offset as int) + encode_uint(v as nat, 8, order_of(little))
            + old(dst)@.skip(offset + 8),
{
    dst.as_mut_slice().cwrite_with::<u64>(v as u64, offset, scroll::Endian::from(little))
}

/// Relies on `Pread::gread_with::<i8>` on a byte slice: it fails unless 1
/// byte remain at `*offset`; else it reads them as the two's-complement bits of an `i8` in the byte order
/// that `Endian::from(little)` names and advances `*offset` past them.
#[verifier::external_body]
pub(crate) fn gread_i8(src: &[u8], offset: &mut usize, little: bool) -> (r: Result<u128, scroll::Error>)
    ensures
        r is Ok <==> *old(offset) + 1 <= src@.len(),
        r is Ok ==> r->Ok_0 == uint_at(src@, *old(offset) as int, Scalar::I8, order_of(little))
            && *final(offset) == *old(offset) + 1,
        r is Err ==> *final(offset) == *old(offset),
{
    src.gread_with::<i8>(offset, scroll::Endian::from(little)).map(|v| v as u8 as u128)
}

/// Relies on `Pread::gread_inout_with` over `n` items of `i8`: one
/// `gread_with` per item in index order, stopping at the first failure.
#[verifier::external_body]
pub(crate) fn gread_inout_i8(src: &[u8], offset: &mut usize, n: usize, little: bool) -> (r: Result<
    Vec<u128>,
    scroll::Error,
>)
    requires
        n <= src@.len(),
    ensures
        r is Ok <==> n == 0 || *old(offset) + n * 1 <= src@.len(),
        r is Ok ==> r->Ok_0@.len() == n && *final(offset) == *old(offset) + n * 1,
        r is Ok ==> forall|j: int|
            0 <= j < n ==> r->Ok_0@[j] == #[trigger] uint_at(
                src@,
                *old(offset) + j * 1,
                Scalar::I8,
                order_of(little),
            ),
{
    let mut items = vec![0i8; n];
    src.gread_inout_with(offset, &mut items, scroll::Endian::from(little)).map(
        |()| items.into_iter().map(|x| x as u8 as u128).collect(),
    )
}

/// Relies on `Pwrite::gwrite_with::<i8>` on a byte slice: it fails, writing
/// nothing, unless 1 byte remain at `*offset`; else it writes the `i8` whose two's-complement bits are `v` in
/// the byte order that `Endian::from(little)` names and advances `*offset`.
#[verifier::external_body]
pub(crate) fn gwrite_i8(dst: &mut Vec<u8>, v: u128, offset: &mut usize, little: bool) -> (r: Result<
    usize,
    scroll::Error,
>)
    requires
        v < 0x100,
    ensures
        r is Ok <==> *old(offset) + 1 <= old(dst)@.len(),
        r is Ok ==> r->Ok_0 == 1 && *final(offset) == *old(offset) + 1,
        r is Ok ==> final(dst)@ == old(dst)@.take(*old(offset) as int) + encode_uint(
            v as nat,
            1,
            order_of(little),
        ) + old(dst)@.skip(*old(offset) + 1),
        r is Err ==> *final(offset) == *old(offset) && final(dst)@ == old(dst)@,
{
    dst.as_mut_slice().gwrite_with(v as u8 as i8, offset, scroll::Endian::from(little))
}

/// Relies on `Cread::cread_with::<i8>` on a byte slice, which panics unless
/// 1 byte remain at `offset` and otherwise reads them as the two's-complement bits of an `i8` in the byte
/// order that `Endian::from(little)` names.
#[verifier::external_body]
pub(crate) fn cread_i8(src: &[u8], offset: usize, little: bool) -> (r: u128)
    requires
        offset + 1 <= src@.len(),
    ensures
        r == uint_at(src@, offset as int, Scalar::I8, order_of(little)),
{
    src.cread_with::<i8>(offset, scroll::Endian::from(little)) as u8 as u128
}

/// Relies on `Cwrite::cwrite_with::<i8>` on a byte slice, which panics unless
/// 1 byte remain at `offset` and otherwise writes the `i8` whose two's-complement bits are `v` there in the byte
/// order that `Endian::from(little)` names.
#[verifier::external_body]
pub(crate) fn cwrite_i8(dst: &mut Vec<u8>, v: u128, offset: usize, little: bool)
    requires
        offset + 1 <= old(dst)@.len(),
        v < 0x100,
    ensures
        final(dst)@ == old(dst)@.take(offset as int) + encode_uint(v as nat, 1, order_of(little))
            + old(dst)@.skip(offset + 1),
{
    dst.as_mut_slice().cwrite_with::<i8>(v as u8 as i8, offset, scroll::Endian::from(little))
}

/// Relies on `Pread::gread_with::<i16>` on a byte slice: it fails unless 2
/// bytes remain at `*offset`; else it reads them as the two's-complement bits of an `i16` in the byte order
/// that `Endian::from(little)` names and advances `*offset` past them.
#[verifier::external_body]
pub(crate) fn gread_i16(src: &[u8], offset: &mut usize, little: bool) -> (r: Result<u128, scroll::Error>)
    ensures
        r is Ok <==> *old(offset) + 2 <= src@.len(),
        r is Ok ==> r->Ok_0 == uint_at(src@, *old(offset) as int, Scalar::I16, order_of(little))
            && *final(offset) == *old(offset) + 2,
        r is Err ==> *final(offset) == *old(offset),
{
    src.gread_with::<i16>(offset, scroll::Endian::from(little)).map(|v| v as u16 as u128)
}

/// Relies on `Pread::gread_inout_with` over `n` items of `i16`: one
/// `gread_with` per item in index order, stopping at the first failure.
#[verifier::external_body]
pub(crate) fn gread_inout_i16(src: &[u8], offset: &mut usize, n: usize, little: bool) -> (r: Result<
    Vec<u128>,
    scroll::Error,
>)
    requires
        n <= src@.len(),
    ensures
        r is Ok <==> n == 0 || *old(offset) + n * 2 <= src@.len(),
        r is Ok ==> r->Ok_0@.len() == n && *final(offset) == *old(offset) + n * 2,
        r is Ok ==> forall|j: int|
            0 <= j < n ==> r->Ok_0@[j] == #[trigger] uint_at(
                src@,
                *old(offset) + j * 2,
                Scalar::I16,
                order_of(little),
            ),
{
    let mut items = vec![0i16; n];
    src.gread_inout_with(offset, &mut items, scroll::Endian::from(little)).map(
        |()| items.into_iter().map(|x| x as u16 as u128).collect(),
    )
}

/// Relies on `Pwrite::gwrite_with::<i16>` on a byte slice: it fails, writing
/// nothing, unless 2 bytes remain at `*offset`; else it writes the `i16` whose two's-complement bits are `v` in
/// the byte order that `Endian::from(little)` names and advances `*offset`.
#[verifier::external_body]
pub(crate) fn gwrite_i16(dst: &mut Vec<u8>, v: u128, offset: &mut usize, little: bool) -> (r: Result<
    usize,
    scroll::Error,
>)
    requires
        v < 0x1_0000,
    ensures
        r is Ok <==> *old(offset) + 2 <= old(dst)@.len(),
        r is Ok ==> r->Ok_0 == 2 && *final(offset) == *old(offset) + 2,
        r is Ok ==> final(dst)@ == old(dst)@.take(*old(offset) as int) + encode_uint(
            v as nat,
            2,
            order_of(little),
        ) + old(dst)@.skip(*old(offset) + 2),
        r is Err ==> *final(offset) == *old(offset) && final(dst)@ == old(dst)@,
{
    dst.as_mut_slice().gwrite_with(v as u16 as i16, offset, scroll::Endian::from(little))
}

/// Relies on `Cread::cread_with::<i16>` on a byte slice, which panics unless
/// 2 bytes remain at `offset` and otherwise reads them as the two's-complement bits of an `i16` in the byte
/// order that `Endian::from(little)` names.
#[verifier::external_body]
pub(crate) fn cread_i16(src: &[u8], offset: usize, little: bool) -> (r: u128)
    requires
        offset + 2 <= src@.len(),
    ensures
        r == uint_at(src@, offset as int, Scalar::I16, order_of(little)),
{
    src.cread_with::<i16>(offset, scroll::Endian::from(little)) as u16 as u128
}

/// Relies on `Cwrite::cwrite_with::<i16>` on a byte slice, which panics unless
/// 2 bytes remain at `offset` and otherwise writes the `i16` whose two's-complement bits are `v` there in the byte
/// order that `Endian::from(little)` names.
#[verifier::external_body]
pub(crate) fn cwrite_i16(dst: &mut Vec<u8>, v: u128, offset: usize, little: bool)
    requires
        offset + 2 <= old(dst)@.len(),
        v < 0x1_0000,
    ensures
        final(dst)@ == old(dst)@.take(offset as int) + encode_uint(v as nat, 2, order_of(little))
            + old(dst)@.skip(offset + 2),
{
    dst.as_mut_slice().cwrite_with::<i16>(v as u16 as i16, offset, scroll::Endian::from(little))
}

/// Relies on `Pread::gread_with::<i32>` on a byte slice: it fails unless 4
/// bytes remain at `*offset`; else it reads them as the two's-complement bits of an `i32` in the byte order
/// that `Endian::from(little)` names and advances `*offset` past them.
#[verifier::external_body]
pub(crate) fn gread_i32(src: &[u8], offset: &mut usize, little: bool) -> (r: Result<u128, scroll::Error>)
    ensures
        r is Ok <==> *old(offset) + 4 <= src@.len(),
        r is Ok ==> r->Ok_0 == uint_at(src@, *old(offset) as int, Scalar::I32, order_of(little))
            && *final(offset) == *old(offset) + 4,
        r is Err ==> *final(offset) == *old(offset),
{
    src.gread_with::<i32>(offset, scroll::Endian::from(little)).map(|v| v as u32 as u128)
}

/// Relies on `Pread::gread_inout_with` over `n` items of `i32`: one
/// `gread_with` per item in index order, stopping at the first failure.
#[verifier::external_body]
pub(crate) fn gread_inout_i32(src: &[u8], offset: &mut usize, n: usize, little: bool) -> (r: Result<
    Vec<u128>,
    scroll::Error,
>)
    requires
        n <= src@.len(),
    ensures
        r is Ok <==> n == 0 || *old(offset) + n * 4 <= src@.len(),
        r is Ok ==> r->Ok_0@.len() == n && *final(offset) == *old(offset) + n * 4,
        r is Ok ==> forall|j: int|
            0 <= j < n ==> r->Ok_0@[j] == #[trigger] uint_at(
                src@,
                *old(offset) + j * 4,
                Scalar::I32,
                order_of(little),
            ),
{
    let mut items = vec![0i32; n];
    src.gread_inout_with(offset, &mut items, scroll::Endian::from(little)).map(
        |()| items.into_iter().map(|x| x as u32 as u128).collect(),
    )
}

/// Relies on `Pwrite::gwrite_with::<i32>` on a byte slice: it fails, writing
/// nothing, unless 4 bytes remain at `*offset`; else it writes the `i32` whose two's-complement bits are `v` in
/// the byte order that `Endian::from(little)` names and advances `*offset`.
#[verifier::external_body]
pub(crate) fn gwrite_i32(dst: &mut Vec<u8>, v: u128, offset: &mut usize, little: bool) -> (r: Result<
    usize,
    scroll::Error,
>)
    requires
        v < 0x1_0000_0000,
    ensures
        r is Ok <==> *old(offset) + 4 <= old(dst)@.len(),
        r is Ok ==> r->Ok_0 == 4 && *final(offset) == *old(offset) + 4,
        r is Ok ==> final(dst)@ == old(dst)@.take(*old(offset) as int) + encode_uint(
            v as nat,
            4,
            order_of(little),
        ) + old(dst)@.skip(*old(offset) + 4),
        r is Err ==> *final(offset) == *old(offset) && final(dst)@ == old(dst)@,
{
    dst.as_mut_slice().gwrite_with(v as u32 as i32, offset, scroll::Endian::from(little))
}

/// Relies on `Cread::cread_with::<i32>` on a byte slice, which panics unless
/// 4 bytes remain at `offset` and otherwise reads them as the two's-complement bits of an `i32` in the byte
/// order that `Endian::from(little)` names.
#[verifier::external_body]
pub(crate) fn cread_i32(src: &[u8], offset: usize, little: bool) -> (r: u128)
    requires
        offset + 4 <= src@.len(),
    ensures
        r == uint_at(src@, offset as int, Scalar::I32, order_of(little)),
{
    src.cread_with::<i32>(offset, scroll::Endian::from(little)) as u32 as u128
}

/// Relies on `Cwrite::cwrite_with::<i32>` on a byte slice, which panics unless
/// 4 bytes remain at `offset` and otherwise writes the `i32` whose two's-complement bits are `v` there in the byte
/// order that `Endian::from(little)` names.
#[verifier::external_body]
pub(crate) fn cwrite_i32(dst: &mut Vec<u8>, v: u128, offset: usize, little: bool)
    requires
        offset + 4 <= old(dst)@.len(),
        v < 0x1_0000_0000,
    ensures
        final(dst)@ == old(dst)@.take(offset as int) + encode_uint(v as nat, 4, order_of(little))
            + old(dst)@.skip(offset + 4),
{
    dst.as_mut_slice().cwrite_with::<i32>(v as u32 as i32, offset, scroll::Endian::from(little))
}

/// Relies on `Pread::gread_with::<i64>` on a byte slice: it fails unless 8
/// bytes remain at `*offset`; else it reads them as the two's-complement bits of an `i64` in the byte order
/// that `Endian::from(little)` names and advances `*offset` past them.
#[verifier::external_body]
pub(crate) fn gread_i64(src: &[u8], offset: &mut usize, little: bool) -> (r: Result<u128, scroll::Error>)
    ensures
        r is Ok <==> *old(offset) + 8 <= src@.len(),
        r is Ok ==> r->Ok_0 == uint_at(src@, *old(offset) as int, Scalar::I64, order_of(little))
            && *final(offset) == *old(offset) + 8,
        r is Err ==> *final(offset) == *old(offset),
{
    src.gread_with::<i64>(offset, scroll::Endian::from(little)).map(|v| v as u64 as u128)
}

/// Relies on `Pread::gread_inout_with` over `n` items of `i64`: one
/// `gread_with` per item in index order, stopping at the first failure.
#[verifier::external_body]
pub(crate) fn gread_inout_i64(src: &[u8], offset: &mut usize, n: usize, little: bool) -> (r: Result<
    Vec<u128>,
    scroll::Error,
>)
    requires
        n <= src@.len(),
    ensures
        r is Ok <==> n == 0 || *old(offset) + n * 8 <= src@.len(),
        r is Ok ==> r->Ok_0@.len() == n && *final(offset) == *old(offset) + n * 8,
        r is Ok ==> forall|j: int|
            0 <= j < n ==> r->Ok_0@[j] == #[trigger] uint_at(
                src@,
                *old(offset) + j * 8,
                Scalar::I64,
                order_of(little),
            ),
{
    let mut items = vec![0i64; n];
    src.gread_inout_with(offset, &mut items, scroll::Endian::from(little)).map(
        |()| items.into_iter().map(|x| x as u64 as u128).collect(),
    )
}

/// Relies on `Pwrite::gwrite_with::<i64>` on a byte slice: it fails, writing
/// nothing, unless 8 bytes remain at `*offset`; else it writes the `i64` whose two's-complement bits are `v` in
/// the byte order that `Endian::from(little)` names and advances `*offset`.
#[verifier::external_body]
pub(crate) fn gwrite_i64(dst: &mut Vec<u8>, v: u128, offset: &mut usize, little: bool) -> (r: Result<
    usize,
    scroll::Error,
>)
    requires
        v < 0x1_0000_0000_0000_0000,
    ensures
        r is Ok <==> *old(offset) + 8 <= old(dst)@.len(),
        r is Ok ==> r->Ok_0 == 8 && *final(offset) == *old(offset) + 8,
        r is Ok ==> final(dst)@ == old(dst)@.take(*old(offset) as int) + encode_uint(
            v as nat,
            8,
            order_of(little),
        ) + old(dst)@.skip(*old(offset) + 8),
        r is Err ==> *final(offset) == *old(offset) && final(dst)@ == old(dst)@,
{
    dst.as_mut_slice().gwrite_with(v as u64 as i64, offset, scroll::Endian::from(little))
}

/// Relies on `Cread::cread_with::<i64>` on a byte slice, which panics unless
/// 8 bytes remain at `offset` and otherwise reads them as the two's-complement bits of an `i64` in the byte
/// order that `Endian::from(little)` names.
#[verifier::external_body]
pub(crate) fn cread_i64(src: &[u8], offset: usize, little: bool) -> (r: u128)
    requires
        offset + 8 <= src@.len(),
    ensures
        r == uint_at(src@, offset as int, Scalar::I64, order_of(little)),
{
    src.cread_with::<i64>(offset, scroll::Endian::from(little)) as u64 as u128
}

/// Relies on `Cwrite::cwrite_with::<i64>` on a byte slice, which panics unless
/// 8 bytes remain at `offset` and otherwise writes the `i64` whose two's-complement bits are `v` there in the byte
/// order that `Endian::from(little)` names.
#[verifier::external_body]
pub(crate) fn cwrite_i64(dst: &mut Vec<u8>, v: u128, offset: usize, little: bool)
    requires
        offset + 8 <= old(dst)@.len(),
        v < 0x1_0000_0000_0000_0000,
    ensures
        final(dst)@ == old(dst)@.take(offset as int) + encode_uint(v as nat, 8, order_of(little))
            + old(dst)@.skip(offset + 8),
{
    dst.as_mut_slice().cwrite_with::<i64>(v as u64 as i64, offset, scroll::Endian::from(little))
}

/// Relies on `Pread::gread_with::<u128>` on a byte slice: it fails unless 16
/// bytes remain at `*offset`; else it reads them in the byte order
/// that `Endian::from(little)` names and advances `*offset` past them.
#[verifier::external_body]
pub(crate) fn gread_u128(src: &[u8], offset: &mut usize, little: bool) -> (r: Result<u128, scroll::Error>)
    ensures
        r is Ok <==> *old(offset) + 16 <= src@.len(),
        r is Ok ==> r->Ok_0 == uint_at(src@, *old(offset) as int, Scalar::U128, order_of(little))
            && *final(offset) == *old(offset) + 16,
        r is Err ==> *final(offset) == *old(offset),
{
    src.gread_with::<u128>(offset, scroll::Endian::from(little))
}

/// Relies on `Pread::gread_inout_with` over `n` items of `u128`: one
/// `gread_with` per item in index order, stopping at the first failure.
#[verifier::external_body]
pub(crate) fn gread_inout_u128(src: &[u8], offset: &mut usize, n: usize, little: bool) -> (r: Result<
    Vec<u128>,
    scroll::Error,
>)
    requires
        n <= src@.len(),
    ensures
        r is Ok <==> n == 0 || *old(offset) + n * 16 <= src@.len(),
        r is Ok ==> r->Ok_0@.len() == n && *final(offset) == *old(offset) + n * 16,
        r is Ok ==> forall|j: int|
            0 <= j < n ==> r->Ok_0@[j] == #[trigger] uint_at(
                src@,
                *old(offset) + j * 16,
                Scalar::U128,
                order_of(little),
            ),
{
    let mut items = vec![0u128; n];
    src.gread_inout_with(offset, &mut items, scroll::Endian::from(little)).map(
        |()| items,
    )
}

/// Relies on `Pwrite::gwrite_with::<u128>` on a byte slice: it fails, writing
/// nothing, unless 16 bytes remain at `*offset`; else it writes the value in
/// the byte order that `Endian::from(little)` names and advances `*offset`.
#[verifier::external_body]
pub(crate) fn gwrite_u128(dst: &mut Vec<u8>, v: u128, offset: &mut usize, little: bool) -> (r: Result<
    usize,
    scroll::Error,
>)
    ensures
        r is Ok <==> *old(offset) + 16 <= old(dst)@.len(),
        r is Ok ==> r->Ok_0 == 16 && *final(offset) == *old(offset) + 16,
        r is Ok ==> final(dst)@ == old(dst)@.take(*old(offset) as int) + encode_uint(
            v as nat,
            16,
            order_of(little),
        ) + old(dst)@.skip(*old(offset) + 16),
        r is Err ==> *final(offset) == *old(offset) && final(dst)@ == old(dst)@,
{
    dst.as_mut_slice().gwrite_with(v, offset, scroll::Endian::from(little))
}

/// Relies on `Cread::cread_with::<u128>` on a byte slice, which panics unless
/// 16 bytes remain at `offset` and otherwise reads them in the byte
/// order that `Endian::from(little)` names.
#[verifier::external_body]
pub(crate) fn cread_u128(src: &[u8], offset: usize, little: bool) -> (r: u128)
    requires
        offset + 16 <= src@.len(),
    ensures
        r == uint_at(src@, offset as int, Scalar::U128, order_of(little)),
{
    src.cread_with::<u128>(offset, scroll::Endian::from(little))
}

/// Relies on `Cwrite::cwrite_with::<u128>` on a byte slice, which panics unless
/// 16 bytes remain at `offset` and otherwise writes the value there in the byte
/// order that `Endian::from(little)` names.
#[verifier::external_body]
pub(crate) fn cwrite_u128(dst: &mut Vec<u8>, v: u128, offset: usize, little: bool)
    requires
        offset + 16 <= old(dst)@.len(),
    ensures
        final(dst)@ == old(dst)@.take(offset as int) + encode_uint(v as nat, 16, order_of(little))
            + old(dst)@.skip(offset + 16),
{
    dst.as_mut_slice().cwrite_with::<u128>(v, offset, scroll::Endian::from(little))
}

/// Relies on `Pread::gread_with::<i128>` on a byte slice: it fails unless 16
/// bytes remain at `*offset`; else it reads them as the two's-complement bits of an `i128` in the byte order
/// that `Endian::from(little)` names and advances `*offset` past them.
#[verifier::external_body]
pub(crate) fn gread_i128(src: &[u8], offset: &mut usize, little: bool) -> (r: Result<u128, scroll::Error>)
    ensures
        r is Ok <==> *old(offset) + 16 <= src@.len(),
        r is Ok ==> r->Ok_0 == uint_at(src@, *old(offset) as int, Scalar::I128, order_of(little))
            && *final(offset) == *old(offset) + 16,
        r is Err ==> *final(offset) == *old(offset),
{
    src.gread_with::<i128>(offset, scroll::Endian::from(little)).map(|v| v as u128)
}

/// Relies on `Pread::gread_inout_with` over `n` items of `i128`: one
/// `gread_with` per item in index order, stopping at the first failure.
#[verifier::external_body]
pub(crate) fn gread_inout_i128(src: &[u8], offset: &mut usize, n: usize, little: bool) -> (r: Result<
    Vec<u128>,
    scroll::Error,
>)
    requires
        n <= src@.len(),
    ensures
        r is Ok <==> n == 0 || *old(offset) + n * 16 <= src@.len(),
        r is Ok ==> r->Ok_0@.len() == n && *final(offset) == *old(offset) + n * 16,
        r is Ok ==> forall|j: int|
            0 <= j < n ==> r->Ok_0@[j] == #[trigger] uint_at(
                src@,
                *old(offset) + j * 16,
                Scalar::I128,
                order_of(little),
            ),
{
    let mut items = vec![0i128; n];
    src.gread_inout_with(offset, &mut items, scroll::Endian::from(little)).map(
        |()| items.into_iter().map(|x| x as u128).collect(),
    )
}

/// Relies on `Pwrite::gwrite_with::<i128>` on a byte slice: it fails, writing
/// nothing, unless 16 bytes remain at `*offset`; else it writes the `i128` whose two's-complement bits are `v` in
/// the byte order that `Endian::from(little)` names and advances `*offset`.
#[verifier::external_body]
pub(crate) fn gwrite_i128(dst: &mut Vec<u8>, v: u128, offset: &mut usize, little: bool) -> (r: Result<
    usize,
    scroll::Error,
>)
    ensures
        r is Ok <==> *old(offset) + 16 <= old(dst)@.len(),
        r is Ok ==> r->Ok_0 == 16 && *final(offset) == *old(offset) + 16,
        r is Ok ==> final(dst)@ == old(dst)@.take(*old(offset) as int) + encode_uint(
            v as nat,
            16,
            order_of(little),
        ) + old(dst)@.skip(*old(offset) + 16),
        r is Err ==> *final(offset) == *old(offset) && final(dst)@ == old(dst)@,
{
    dst.as_mut_slice().gwrite_with(v as i128, offset, scroll::Endian::from(little))
}

/// Relies on `Cread::cread_with::<i128>` on a byte slice, which panics unless
/// 16 bytes remain at `offset` and otherwise reads them as the two's-complement bits of an `i128` in the byte
/// order that `Endian::from(little)` names.
#[verifier::external_body]
pub(crate) fn cread_i128(src: &[u8], offset: usize, little: bool) -> (r: u128)
    requires
        offset + 16 <= src@.len(),
    ensures
        r == uint_at(src@, offset as int, Scalar::I128, order_of(little)),
{
    src.cread_with::<i128>(offset, scroll::Endian::from(little)) as u128
}

/// Relies on `Cwrite::cwrite_with::<i128>` on a byte slice, which panics unless
/// 16 bytes remain at `offset` and otherwise writes the `i128` whose two's-complement bits are `v` there in the byte
/// order that `Endian::from(little)` names.
#[verifier::external_body]
pub(crate) fn cwrite_i128(dst: &mut Vec<u8>, v: u128, offset: usize, little: bool)
    requires
        offset + 16 <= old(dst)@.len(),
    ensures
        final(dst)@ == old(dst)@.take(offset as int) + encode_uint(v as nat, 16, order_of(little))
            + old(dst)@.skip(offset + 16),
{
    dst.as_mut_slice().cwrite_with::<i128>(v as i128, offset, scroll::Endian::from(little))
}

/// Reads one value of `s` at `*offset`, advancing past it.
pub(crate) fn read_scalar(src: &[u8], offset: &mut usize, s: Scalar, order: ByteOrder) -> (r: Result<
    u128,
    scroll::Error,
>)
    ensures
        r is Ok <==> *old(offset) + s.width() <= src@.len(),
        r is Ok ==> r->Ok_0 == uint_at(src@, *old(offset) as int, s, order) && *final(offset)
            == *old(offset) + s.width(),
        r is Err ==> *final(offset) == *old(offset),
{
    let little = order.is_little();
    match s {
        Scalar::U8 => gread_u8(src, offset, little),
        Scalar::U16 => gread_u16(src, offset, little),
        Scalar::U32 => gread_u32(src, offset, little),
        Scalar::U64 => gread_u64(src, offset, little),
        Scalar::I8 => gread_i8(src, offset, little),
        Scalar::I16 => gread_i16(src, offset, little),
        Scalar::I32 => gread_i32(src, offset, little),
        Scalar::I64 => gread_i64(src, offset, little),
        Scalar::U128 => gread_u128(src, offset, little),
        Scalar::I128 => gread_i128(src, offset, little),
    }
}

/// Reads `n` values of `s` at `*offset` in one bulk operation.
pub(crate) fn read_scalars(src: &[u8], offset: &mut usize, s: Scalar, n: usize, order: ByteOrder) -> (r:
    Result<Vec<u128>, scroll::Error>)
    requires
        *old(offset) <= src@.len(),
    ensures
        r is Ok <==> n == 0 || *old(offset) + n * s.width() <= src@.len(),
        r is Ok ==> r->Ok_0@.len() == n && *final(offset) == *old(offset) + n * s.width(),
        r is Ok ==> forall|j: int|
            0 <= j < n ==> r->Ok_0@[j] == #[trigger] uint_at(
                src@,
                *old(offset) + j * s.width(),
                s,
                order,
            ),
{
    let little = order.is_little();
    if n <= src.len() {
        return match s {
            Scalar::U8 => gread_inout_u8(src, offset, n, little),
            Scalar::U16 => gread_inout_u16(src, offset, n, little),
            Scalar::U32 => gread_inout_u32(src, offset, n, little),
            Scalar::U64 => gread_inout_u64(src, offset, n, little),
            Scalar::I8 => gread_inout_i8(src, offset, n, little),
            Scalar::I16 => gread_inout_i16(src, offset, n, little),
            Scalar::I32 => gread_inout_i32(src, offset, n, little),
            Scalar::I64 => gread_inout_i64(src, offset, n, little),
            Scalar::U128 => gread_inout_u128(src, offset, n, little),
            Scalar::I128 => gread_inout_i128(src, offset, n, little),
        };
    }
    // More items than bytes: the bulk read fails. The same reads, one item at
    // a time, meet the same failure without room reserved for every item.
    let ghost start = *offset;
    let mut j: usize = 0;
    while j < n
        invariant
            *offset == start + j * s.width(),
            *offset <= src@.len(),
            j <= *offset,
            s.width() >= 1,
            n > src@.len(),
        decreases n - j,
    {
        match read_scalar(src, offset, s, order) {
            Ok(_) => {},
            Err(e) => {
                proof {
                    assert(start + n * s.width() > src@.len()) by (nonlinear_arith)
                        requires
                            n > src@.len(),
                            s.width() >= 1,
                    ;
                }
                return Err(e);
            },
        }
        proof {
            assert(*offset == start + (j + 1) * s.width()) by (nonlinear_arith)
                requires
                    *offset == start + j * s.width() + s.width(),
            ;
        }
        j += 1;
    }
    unreached()
}

/// Writes `v` as one value of `s` at `*offset`, advancing past it.
pub(crate) fn write_scalar(dst: &mut Vec<u8>, v: u128, s: Scalar, offset: &mut usize, order: ByteOrder) -> (r:
    Result<usize, scroll::Error>)
    requires
        fits(v, s),
    ensures
        r is Ok <==> *old(offset) + s.width() <= old(dst)@.len(),
        r is Ok ==> r->Ok_0 == s.width() && *final(offset) == *old(offset) + s.width(),
        r is Ok ==> final(dst)@ == old(dst)@.take(*old(offset) as int) + encode_uint(
            v as nat,
            s.width(),
            order,
        ) + old(dst)@.skip(*old(offset) + s.width()),
        r is Err ==> *final(offset) == *old(offset) && final(dst)@ == old(dst)@,
{
    proof {
        lemma_pow256_width(s);
    }
    let little = order.is_little();
    match s {
        Scalar::U8 => gwrite_u8(dst, v, offset, little),
        Scalar::U16 => gwrite_u16(dst, v, offset, little),
        Scalar::U32 => gwrite_u32(dst, v, offset, little),
        Scalar::U64 => gwrite_u64(dst, v, offset, little),
        Scalar::I8 => gwrite_i8(dst, v, offset, little),
        Scalar::I16 => gwrite_i16(dst, v, offset, little),
        Scalar::I32 => gwrite_i32(dst, v, offset, little),
        Scalar::I64 => gwrite_i64(dst, v, offset, little),
        Scalar::U128 => gwrite_u128(dst, v, offset, little),
        Scalar::I128 => gwrite_i128(dst, v, offset, little),
    }
}

/// Reads one value of `s` at `offset`; the caller sees that it is in bounds.
pub(crate) fn cread_scalar(src: &[u8], offset: usize, s: Scalar, order: ByteOrder) -> (r: u128)
    requires
        offset + s.width() <= src@.len(),
    ensures
        r == uint_at(src@, offset as int, s, order),
{
    let little = order.is_little();
    match s {
        Scalar::U8 => cread_u8(src, offset, little),
        Scalar::U16 => cread_u16(src, offset, little),
        Scalar::U32 => cread_u32(src, offset, little),
        Scalar::U64 => cread_u64(src, offset, little),
        Scalar::I8 => cread_i8(src, offset, little),
        Scalar::I16 => cread_i16(src, offset, little),
        Scalar::I32 => cread_i32(src, offset, little),
        Scalar::I64 => cread_i64(src, offset, little),
        Scalar::U128 => cread_u128(src, offset, little),
        Scalar::I128 => cread_i128(src, offset, little),
    }
}

/// Writes `v` as one value of `s` at `offset`; the caller sees that it is in
/// bounds.
pub(crate) fn cwrite_scalar(dst: &mut Vec<u8>, v: u128, s: Scalar, offset: usize, order: ByteOrder)
    requires
        offset + s.width() <= old(dst)@.len(),
        fits(v, s),
    ensures
        final(dst)@ == old(dst)@.take(offset as int) + encode_uint(v as nat, s.width(), order)
            + old(dst)@.skip(offset + s.width()),
{
    proof {
        lemma_pow256_width(s);
    }
    let little = order.is_little();
    match s {
        Scalar::U8 => cwrite_u8(dst, v, offset, little),
        Scalar::U16 => cwrite_u16(dst, v, offset, little),
        Scalar::U32 => cwrite_u32(dst, v, offset, little),
        Scalar::U64 => cwrite_u64(dst, v, offset, little),
        Scalar::I8 => cwrite_i8(dst, v, offset, little),
        Scalar::I16 => cwrite_i16(dst, v, offset, little),
        Scalar::I32 => cwrite_i32(dst, v, offset, little),
        Scalar::I64 => cwrite_i64(dst, v, offset, little),
        Scalar::U128 => cwrite_u128(dst, v, offset, little),
        Scalar::I128 => cwrite_i128(dst, v, offset, little),
    }
}

} // verus!
