//! Big-endian, two's-complement integers as byte sequences.
use vstd::prelude::*;

verus! {

/// `256` to the power `n`: the number of distinct values of `n` bytes.
pub open spec fn pow256(n: nat) -> nat
    decreases n,
{
    if n == 0 {
        1
    } else {
        256 * pow256((n - 1) as nat)
    }
}

/// The low `n` base-256 digits of `u`, most significant first.
pub open spec fn be_bytes(u: nat, n: nat) -> Seq<u8>
    decreases n,
{
    if n == 0 {
        Seq::empty()
    } else {
        be_bytes(u / 256, (n - 1) as nat).push((u % 256) as u8)
    }
}

/// The number whose base-256 digits, most significant first, are `s`.
pub open spec fn be_value(s: Seq<u8>) -> nat
    decreases s.len(),
{
    if s.len() == 0 {
        0
    } else {
        (be_value(s.drop_last()) * 256 + s.last()) as nat
    }
}

/// The unsigned `n`-byte pattern of the two's-complement integer `x`.
pub open spec fn twos(x: int, n: nat) -> nat {
    if x >= 0 {
        x as nat
    } else {
        (x + pow256(n)) as nat
    }
}

/// The two's-complement integer held in the unsigned `n`-byte pattern `u`.
pub open spec fn from_twos(u: nat, n: nat) -> int {
    if u < pow256(n) / 2 {
        u as int
    } else {
        u - pow256(n)
    }
}

/// Whether `x` is representable as a signed integer of `n` bytes.
pub open spec fn fits_signed(x: int, n: nat) -> bool {
    -(pow256(n) / 2) <= x < pow256(n) / 2
}

/// The `n`-byte big-endian two's-complement encoding of `x`.
pub open spec fn int_bytes(x: int, n: nat) -> Seq<u8> {
    be_bytes(twos(x, n), n)
}

/// The signed integer that the big-endian two's-complement bytes `s` encode.
pub open spec fn int_of_bytes(s: Seq<u8>) -> int {
    from_twos(be_value(s), s.len())
}

/// The one-byte encoding of a boolean: `1` for true, `0` for false.
pub open spec fn bool_bytes(b: bool) -> Seq<u8> {
    seq![if b { 1u8 } else { 0u8 }]
}

/// The boolean that a one-byte encoding holds: any byte but `0` is true.
pub open spec fn bool_of_bytes(s: Seq<u8>) -> bool {
    s[0] != 0
}

pub proof fn lemma_pow256_pos(n: nat)
    ensures
        pow256(n) >= 1,
    decreases n,
{
    if n > 0 {
        lemma_pow256_pos((n - 1) as nat);
    }
}

pub proof fn lemma_pow256_mono(m: nat, n: nat)
    requires
        m <= n,
    ensures
        pow256(m) <= pow256(n),
    decreases n,
{
    if m < n {
        lemma_pow256_mono(m, (n - 1) as nat);
        lemma_pow256_pos((n - 1) as nat);
    }
}

pub proof fn lemma_pow256_values()
    ensures
        pow256(1) == 0x100,
        pow256(2) == 0x1_0000,
        pow256(4) == 0x1_0000_0000,
        pow256(8) == 0x1_0000_0000_0000_0000,
{
    reveal_with_fuel(pow256, 9);
}

pub proof fn lemma_be_bytes_len(u: nat, n: nat)
    ensures
        be_bytes(u, n).len() == n,
    decreases n,
{
    if n > 0 {
        lemma_be_bytes_len(u / 256, (n - 1) as nat);
    }
}

pub proof fn lemma_be_value_bound(s: Seq<u8>)
    ensures
        be_value(s) < pow256(s.len()),
    decreases s.len(),
{
    if s.len() > 0 {
        let p = s.drop_last();
        lemma_be_value_bound(p);
        let a = be_value(p);
        let b = s.last() as int;
        let q = pow256(p.len());
        assert(a * 256 + b < q * 256) by (nonlinear_arith)
            requires
                a < q,
                0 <= b < 256,
        ;
    }
}

/// Reading back `n` digits that were written from `u` gives `u`.
pub proof fn lemma_be_round_trip(u: nat, n: nat)
    requires
        u < pow256(n),
    ensures
        be_value(be_bytes(u, n)) == u,
    decreases n,
{
    if n > 0 {
        let m = (n - 1) as nat;
        assert(u / 256 < pow256(m)) by (nonlinear_arith)
            requires
                u < 256 * pow256(m),
        ;
        lemma_be_round_trip(u / 256, m);
        let s = be_bytes(u, n);
        assert(s.drop_last() =~= be_bytes(u / 256, m));
    }
}

/// Decoding the encoding of a representable signed integer gives it back.
pub proof fn lemma_int_round_trip(x: int, n: nat)
    requires
        fits_signed(x, n),
    ensures
        int_bytes(x, n).len() == n,
        int_of_bytes(int_bytes(x, n)) == x,
{
    lemma_pow256_pos(n);
    lemma_be_bytes_len(twos(x, n), n);
    lemma_be_round_trip(twos(x, n), n);
}

/// Any `n` bytes decode to an integer representable in `n` bytes.
pub proof fn lemma_int_of_bytes_fits(s: Seq<u8>)
    requires
        s.len() >= 1,
    ensures
        fits_signed(int_of_bytes(s), s.len()),
{
    lemma_be_value_bound(s);
    lemma_pow256_pos((s.len() - 1) as nat);
}

} // verus!
