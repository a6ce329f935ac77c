//! Byte-level model of unsigned integers under a byte order.
use vstd::prelude::*;

verus! {

/// The interpretation context threaded through every primitive: byte order.
#[derive(Clone, Copy, Debug, PartialEq, Eq, Structural)]
pub enum ByteOrder {
    Little,
    Big,
}

impl ByteOrder {
    pub fn is_little(&self) -> (r: bool)
        ensures
            r == (*self == ByteOrder::Little),
    {
        match self {
            ByteOrder::Little => true,
            ByteOrder::Big => false,
        }
    }
}

/// The byte order that a little-endian flag names.
pub open spec fn order_of(little: bool) -> ByteOrder {
    if little {
        ByteOrder::Little
    } else {
        ByteOrder::Big
    }
}

/// `256` to the power `n`: one past the largest value that `n` bytes hold.
pub open spec fn pow256(n: nat) -> nat
    decreases n,
{
    if n == 0 {
        1
    } else {
        256 * pow256((n - 1) as nat)
    }
}

/// The `n` bytes of `v`, least significant first.
pub open spec fn le_bytes(v: nat, n: nat) -> Seq<u8>
    decreases n,
{
    if n == 0 {
        Seq::empty()
    } else {
        seq![(v % 256) as u8] + le_bytes(v / 256, (n - 1) as nat)
    }
}

/// The `n` bytes of `v`, most significant first.
pub open spec fn be_bytes(v: nat, n: nat) -> Seq<u8>
    decreases n,
{
    if n == 0 {
        Seq::empty()
    } else {
        be_bytes(v / 256, (n - 1) as nat) + seq![(v % 256) as u8]
    }
}

/// The value of bytes read least significant first.
pub open spec fn le_value(b: Seq<u8>) -> nat
    decreases b.len(),
{
    if b.len() == 0 {
        0
    } else {
        b[0] as nat + 256 * le_value(b.drop_first())
    }
}

/// The value of bytes read most significant first.
pub open spec fn be_value(b: Seq<u8>) -> nat
    decreases b.len(),
{
    if b.len() == 0 {
        0
    } else {
        256 * be_value(b.drop_last()) + b.last() as nat
    }
}

/// The `n` bytes that hold `v` under `order`.
pub open spec fn encode_uint(v: nat, n: nat, order: ByteOrder) -> Seq<u8> {
    match order {
        ByteOrder::Little => le_bytes(v, n),
        ByteOrder::Big => be_bytes(v, n),
    }
}

/// The value that the bytes `b` hold under `order`.
pub open spec fn decode_uint(b: Seq<u8>, order: ByteOrder) -> nat {
    match order {
        ByteOrder::Little => le_value(b),
        ByteOrder::Big => be_value(b),
    }
}

pub proof fn lemma_encode_len(v: nat, n: nat, order: ByteOrder)
    ensures
        encode_uint(v, n, order).len() == n,
    decreases n,
{
    if n > 0 {
        lemma_encode_len(v / 256, (n - 1) as nat, order);
    }
}

proof fn lemma_quotient_fits(v: nat, n: nat)
    requires
        n > 0,
        v < pow256(n),
    ensures
        v / 256 < pow256((n - 1) as nat),
        v % 256 < 256,
        v == 256 * (v / 256) + v % 256,
{
    let p = pow256((n - 1) as nat);
    assert(v < 256 * p);
    assert(v / 256 < p) by (nonlinear_arith)
        requires v < 256 * p;
    assert(v == 256 * (v / 256) + v % 256) by (nonlinear_arith);
}

/// Decoding the bytes of a value that fits gives the value back.
pub proof fn lemma_decode_encode(v: nat, n: nat, order: ByteOrder)
    requires
        v < pow256(n),
    ensures
        decode_uint(encode_uint(v, n, order), order) == v,
    decreases n,
{
    if n == 0 {
        assert(v == 0);
    } else {
        lemma_quotient_fits(v, n);
        lemma_decode_encode(v / 256, (n - 1) as nat, order);
        let rest = encode_uint(v / 256, (n - 1) as nat, order);
        match order {
            ByteOrder::Little => {
                let b = le_bytes(v, n);
                assert(b.drop_first() =~= rest);
            },
            ByteOrder::Big => {
                let b = be_bytes(v, n);
                assert(b.drop_last() =~= rest);
            },
        }
    }
}

/// A value decoded from `n` bytes fits in `n` bytes.
pub proof fn lemma_decode_fits(b: Seq<u8>, order: ByteOrder)
    ensures
        decode_uint(b, order) < pow256(b.len()),
    decreases b.len(),
{
    if b.len() > 0 {
        let n = b.len();
        match order {
            ByteOrder::Little => {
                lemma_decode_fits(b.drop_first(), order);
                let x = le_value(b.drop_first());
                let p = pow256((n - 1) as nat);
                let c = b[0] as nat;
                assert(c + 256 * x < 256 * p) by (nonlinear_arith)
                    requires x < p, c < 256;
            },
            ByteOrder::Big => {
                lemma_decode_fits(b.drop_last(), order);
                let x = be_value(b.drop_last());
                let p = pow256((n - 1) as nat);
                let c = b.last() as nat;
                assert(256 * x + c < 256 * p) by (nonlinear_arith)
                    requires x < p, c < 256;
            },
        }
    }
}

} // verus!
