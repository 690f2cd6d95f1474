//! Big-endian unsigned integers as byte sequences.
use vstd::prelude::*;
use byteorder::{BigEndian, ByteOrder};

verus! {

/// `256` raised to the power `n`.
pub open spec fn pow256(n: nat) -> nat
    decreases n,
{
    if n == 0 {
        1
    } else {
        256 * pow256((n - 1) as nat)
    }
}

/// The number that `s` denotes, most significant byte first.
pub open spec fn be_value(s: Seq<u8>) -> nat
    decreases s.len(),
{
    if s.len() == 0 {
        0
    } else {
        be_value(s.drop_last()) * 256 + s.last() as nat
    }
}

/// The `n` low-order bytes of `v`, most significant first.
pub open spec fn be_bytes(v: nat, n: nat) -> Seq<u8>
    decreases n,
{
    if n == 0 {
        Seq::empty()
    } else {
        be_bytes(v / 256, (n - 1) as nat).push((v % 256) as u8)
    }
}

pub proof fn lemma_pow256_positive(n: nat)
    ensures
        pow256(n) > 0,
    decreases n,
{
    if n > 0 {
        lemma_pow256_positive((n - 1) as nat);
    }
}

pub proof fn lemma_be_bytes_len(v: nat, n: nat)
    ensures
        be_bytes(v, n).len() == n,
    decreases n,
{
    if n > 0 {
        lemma_be_bytes_len(v / 256, (n - 1) as nat);
    }
}

/// Reading back the bytes of `v` gives `v`, when `v` fits in `n` bytes.
pub proof fn lemma_be_round_trip(v: nat, n: nat)
    requires
        v < pow256(n),
    ensures
        be_value(be_bytes(v, n)) == v,
        be_bytes(v, n).len() == n,
    decreases n,
{
    lemma_be_bytes_len(v, n);
    if n > 0 {
        let m = (n - 1) as nat;
        assert(v / 256 < pow256(m)) by (nonlinear_arith)
            requires
                v < pow256(n),
                pow256(n) == 256 * pow256(m),
        ;
        lemma_be_round_trip(v / 256, m);
        let s = be_bytes(v, n);
        assert(s.drop_last() =~= be_bytes(v / 256, m));
        assert(v == (v / 256) * 256 + v % 256) by (nonlinear_arith);
    }
}

/// The number that `s` denotes fits in `s.len()` bytes.
pub proof fn lemma_be_value_bound(s: Seq<u8>)
    ensures
        be_value(s) < pow256(s.len()),
    decreases s.len(),
{
    if s.len() > 0 {
        let t = s.drop_last();
        lemma_be_value_bound(t);
        assert(be_value(t) * 256 + (s.last() as nat) < 256 * pow256(t.len())) by (nonlinear_arith)
            requires
                be_value(t) < pow256(t.len()),
                (s.last() as nat) < 256,
        ;
    }
}

pub proof fn lemma_pow256_small()
    ensures
        pow256(1) == 0x100,
        pow256(2) == 0x1_0000,
        pow256(4) == 0x1_0000_0000,
        pow256(8) == 0x1_0000_0000_0000_0000,
{
    reveal_with_fuel(pow256, 9);
}

/// Relies on byteorder's `BigEndian::read_uint`: the `nbytes` bytes of `buf`
/// from `start` on, read as an unsigned integer, most significant first.
#[verifier::external_body]
pub(crate) fn read_be(buf: &[u8], start: usize, nbytes: usize) -> (r: u64)
    requires
        1 <= nbytes <= 8,
        start + nbytes <= buf@.len(),
    ensures
        r as nat == be_value(buf@.subrange(start as int, start + nbytes)),
{
    BigEndian::read_uint(&buf[start..], nbytes)
}

/// Relies on byteorder's `BigEndian::write_uint`: `n` written in `nbytes`
/// bytes, most significant first.
#[verifier::external_body]
pub(crate) fn write_be(n: u64, nbytes: usize) -> (r: Vec<u8>)
    requires
        1 <= nbytes <= 8,
        (n as nat) < pow256(nbytes as nat),
    ensures
        r@ == be_bytes(n as nat, nbytes as nat),
{
    let mut buf = vec![0u8; nbytes];
    BigEndian::write_uint(&mut buf, n, nbytes);
    buf
}

} // verus!
