//! Little-endian integer fields, read and written through `byteorder`.
use byteorder::{ByteOrder, LittleEndian};
use vstd::arithmetic::div_mod::lemma_fundamental_div_mod_converse;
use vstd::prelude::*;

verus! {

/// `256` raised to the power `n`.
pub open spec fn pow256(n: nat) -> nat
    decreases n,
{
    if n == 0 {
        1
    } else {
        256 * pow256((n - 1) as nat)
    }
}

/// The unsigned value of a little-endian byte sequence.
pub open spec fn le_val(s: Seq<u8>) -> nat
    decreases s.len(),
{
    if s.len() == 0 {
        0
    } else {
        s[0] as nat + 256 * le_val(s.drop_first())
    }
}

/// The `n` low-order bytes of `x`, least significant first.
pub open spec fn le_bytes(x: nat, n: nat) -> Seq<u8>
    decreases n,
{
    if n == 0 {
        Seq::empty()
    } else {
        seq![(x % 256) as u8] + le_bytes(x / 256, (n - 1) as nat)
    }
}

/// Two's-complement reading of an unsigned field of `n` bytes.
pub open spec fn signed_of(u: nat, n: nat) -> int {
    if 2 * u >= pow256(n) {
        u - pow256(n)
    } else {
        u as int
    }
}

/// Two's-complement encoding of `v` in a field of `n` bytes.
pub open spec fn twos(v: int, n: nat) -> nat {
    if v < 0 {
        (v + pow256(n)) as nat
    } else {
        v as nat
    }
}

pub proof fn lemma_pow256_values()
    ensures
        pow256(0) == 1,
        pow256(1) == 256,
        pow256(2) == 65536,
        pow256(3) == 16777216,
        pow256(4) == 4294967296,
        pow256(5) == 1099511627776,
        pow256(8) == 18446744073709551616,
{
    reveal_with_fuel(pow256, 9);
}

pub proof fn lemma_le_bytes_len(x: nat, n: nat)
    ensures
        le_bytes(x, n).len() == n,
    decreases n,
{
    if n > 0 {
        lemma_le_bytes_len(x / 256, (n - 1) as nat);
    }
}

pub proof fn lemma_le_val_bound(s: Seq<u8>)
    ensures
        le_val(s) < pow256(s.len()),
    decreases s.len(),
{
    if s.len() > 0 {
        lemma_le_val_bound(s.drop_first());
    }
}

/// Writing `x` in `n` bytes and reading the bytes back gives `x`.
pub proof fn lemma_le_val_of_bytes(x: nat, n: nat)
    requires
        x < pow256(n),
    ensures
        le_val(le_bytes(x, n)) == x,
    decreases n,
{
    if n > 0 {
        let rest = le_bytes(x / 256, (n - 1) as nat);
        let s = le_bytes(x, n);
        assert(s.drop_first() =~= rest);
        lemma_fundamental_div_mod_converse(x as int, 256, x as int / 256, x as int % 256);
        lemma_le_val_of_bytes(x / 256, (n - 1) as nat);
    }
}

/// A byte sequence is the encoding of its own value.
pub proof fn lemma_bytes_of_le_val(s: Seq<u8>)
    ensures
        le_bytes(le_val(s), s.len()) == s,
    decreases s.len(),
{
    if s.len() > 0 {
        let v = le_val(s);
        let r = le_val(s.drop_first());
        lemma_fundamental_div_mod_converse(v as int, 256, r as int, s[0] as int);
        lemma_bytes_of_le_val(s.drop_first());
        assert(le_bytes(v, s.len()) =~= s);
    }
}

/// Relies on byteorder's `LittleEndian::read_uint`: the first `nbytes` bytes of
/// `buf` as an unsigned little-endian integer; it panics unless
/// `1 <= nbytes <= 8` and `nbytes <= buf.len()`.
#[verifier::external_body]
pub(crate) fn read_uint_le(buf: &[u8], nbytes: usize) -> (r: u64)
    requires
        1 <= nbytes <= 8,
        nbytes <= buf@.len(),
    ensures
        r as nat == le_val(buf@.take(nbytes as int)),
{
    LittleEndian::read_uint(buf, nbytes)
}

/// Relies on byteorder's `LittleEndian::read_int`: the first `nbytes` bytes of
/// `buf` as a two's-complement little-endian integer, sign-extended; it panics
/// unless `1 <= nbytes <= 8` and `nbytes <= buf.len()`.
#[verifier::external_body]
pub(crate) fn read_int_le(buf: &[u8], nbytes: usize) -> (r: i64)
    requires
        1 <= nbytes <= 8,
        nbytes <= buf@.len(),
    ensures
        r as int == signed_of(le_val(buf@.take(nbytes as int)), nbytes as nat),
{
    LittleEndian::read_int(buf, nbytes)
}

/// Relies on byteorder's `LittleEndian::write_uint`: `n` in `nbytes` bytes,
/// least significant first; it panics unless `n` fits in `nbytes <= 8` bytes.
#[verifier::external_body]
pub(crate) fn uint_le_bytes(n: u64, nbytes: usize) -> (r: Vec<u8>)
    requires
        1 <= nbytes <= 8,
        (n as nat) < pow256(nbytes as nat),
    ensures
        r@ == le_bytes(n as nat, nbytes as nat),
{
    let mut buf = vec![0u8; nbytes];
    LittleEndian::write_uint(&mut buf, n, nbytes);
    buf
}

/// Relies on byteorder's `LittleEndian::write_int`: `n` in two's complement in
/// `nbytes` bytes, least significant first.
#[verifier::external_body]
pub(crate) fn int_le_bytes(n: i64, nbytes: usize) -> (r: Vec<u8>)
    requires
        1 <= nbytes <= 8,
        -pow256(nbytes as nat) <= 2 * n < pow256(nbytes as nat),
    ensures
        r@ == le_bytes(twos(n as int, nbytes as nat), nbytes as nat),
{
    let mut buf = vec![0u8; nbytes];
    LittleEndian::write_int(&mut buf, n, nbytes);
    buf
}

} // verus!
