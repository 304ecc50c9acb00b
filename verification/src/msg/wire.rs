//! Little-endian byte strings and the numbers they stand for.
//!
//! Every integer on the wire is written least significant byte first, in
//! exactly as many bytes as its type is wide. Signed integers travel in
//! two's complement.

use vstd::prelude::*;

verus! {

/// 256 to the power `n`: how many values fit in `n` bytes.
pub open spec fn pow256(n: nat) -> nat
    decreases n,
{
    if n == 0 {
        1
    } else {
        256 * pow256((n - 1) as nat)
    }
}

/// The `n` little-endian bytes of `x`: the least significant byte first.
/// Digits of `x` beyond the `n`-th are dropped.
pub open spec fn le_bytes(x: nat, n: nat) -> Seq<u8>
    decreases n,
{
    if n == 0 {
        Seq::empty()
    } else {
        seq![(x % 256) as u8] + le_bytes(x / 256, (n - 1) as nat)
    }
}

/// The number that a little-endian byte string stands for.
pub open spec fn le_value(s: Seq<u8>) -> nat
    decreases s.len(),
{
    if s.len() == 0 {
        0
    } else {
        s[0] as nat + 256 * le_value(s.drop_first())
    }
}

/// The unsigned number whose `n` bytes are the two's complement form of `v`.
pub open spec fn to_twos(v: int, n: nat) -> nat {
    if v >= 0 {
        v as nat
    } else {
        (v + pow256(n)) as nat
    }
}

/// The signed number that the `n`-byte two's complement pattern `x` stands for.
pub open spec fn from_twos(x: nat, n: nat) -> int {
    if 2 * x < pow256(n) {
        x as int
    } else {
        x - pow256(n)
    }
}

/// The powers of 256 that the fixed-width integer types use.
pub proof fn lemma_pow256_values()
    ensures
        pow256(0) == 1,
        pow256(1) == 0x100,
        pow256(2) == 0x1_0000,
        pow256(4) == 0x1_0000_0000,
        pow256(8) == 0x1_0000_0000_0000_0000,
        pow256(16) == 0x1_0000_0000_0000_0000_0000_0000_0000_0000,
{
    reveal_with_fuel(pow256, 5);
    assert(pow256(12) == 0x1_0000_0000 * pow256(8));
    assert(pow256(16) == 0x1_0000_0000 * pow256(12));
}

/// `le_bytes(x, n)` is `n` bytes long.
pub proof fn lemma_le_bytes_len(x: nat, n: nat)
    ensures
        le_bytes(x, n).len() == n,
    decreases n,
{
    if n > 0 {
        lemma_le_bytes_len(x / 256, (n - 1) as nat);
    }
}

/// A byte string of length `n` stands for a number below `256^n`.
pub proof fn lemma_le_value_bound(s: Seq<u8>)
    ensures
        le_value(s) < pow256(s.len()),
    decreases s.len(),
{
    if s.len() > 0 {
        lemma_le_value_bound(s.drop_first());
    }
}

/// Reading back the `n` bytes of a number that fits in `n` bytes gives the
/// number.
pub proof fn lemma_le_value_of_bytes(x: nat, n: nat)
    requires
        x < pow256(n),
    ensures
        le_value(le_bytes(x, n)) == x,
    decreases n,
{
    if n > 0 {
        let rest = le_bytes(x / 256, (n - 1) as nat);
        let s = le_bytes(x, n);
        lemma_le_value_of_bytes(x / 256, (n - 1) as nat);
        lemma_le_bytes_len(x / 256, (n - 1) as nat);
        assert(s.drop_first() =~= rest);
    }
}

/// Writing the number of a byte string in as many bytes gives the string.
pub proof fn lemma_le_bytes_of_value(s: Seq<u8>)
    ensures
        le_bytes(le_value(s), s.len()) == s,
    decreases s.len(),
{
    if s.len() > 0 {
        lemma_le_bytes_of_value(s.drop_first());
    }
}

/// A single byte stands for its own value.
pub proof fn lemma_le_value_one(b: Seq<u8>)
    requires
        b.len() >= 1,
    ensures
        le_value(b.take(1)) == b[0],
{
    reveal_with_fuel(le_value, 2);
}

/// The bytes of a number, split after the first `k` of `n`.
pub proof fn lemma_le_bytes_split(x: nat, k: nat, n: nat)
    requires
        k <= n,
    ensures
        le_bytes(x, n) == le_bytes(x, k) + le_bytes(x / pow256(k), (n - k) as nat),
    decreases k,
{
    if k == 0 {
        assert(le_bytes(x, n) =~= le_bytes(x, 0) + le_bytes(x / 1, n));
    } else {
        lemma_le_bytes_split(x / 256, (k - 1) as nat, (n - 1) as nat);
        let p = pow256((k - 1) as nat);
        lemma_pow256_positive((k - 1) as nat);
        assert((x / 256) / p == x / (256 * p)) by {
            vstd::arithmetic::div_mod::lemma_div_denominator(x as int, 256, p as int);
        }
    }
}

/// No power of 256 is zero.
pub proof fn lemma_pow256_positive(n: nat)
    ensures
        pow256(n) > 0,
    decreases n,
{
    if n > 0 {
        lemma_pow256_positive((n - 1) as nat);
    }
}

/// Two's complement loses nothing within the range of an `n`-byte signed
/// integer.
pub proof fn lemma_twos_round_trip(v: int, n: nat)
    requires
        -(pow256(n) as int) <= 2 * v < pow256(n),
    ensures
        to_twos(v, n) < pow256(n),
        from_twos(to_twos(v, n), n) == v,
{
}

/// Every `n`-byte pattern is the two's complement form of the number it
/// stands for.
pub proof fn lemma_twos_of_pattern(x: nat, n: nat)
    requires
        x < pow256(n),
    ensures
        to_twos(from_twos(x, n), n) == x,
        -(pow256(n) as int) <= 2 * from_twos(x, n) < pow256(n),
{
}

/// Appends the `n` low bytes of `v` to `out`, least significant first.
pub fn push_le(out: &mut Vec<u8>, v: u128, n: usize)
    ensures
        final(out)@ == old(out)@ + le_bytes(v as nat, n as nat),
{
    let mut rest: u128 = v;
    let mut i: usize = 0;
    proof {
        assert(v as nat / 1 == v as nat);
    }
    while i < n
        invariant
            i <= n,
            rest as nat == v as nat / pow256(i as nat),
            out@ == old(out)@ + le_bytes(v as nat, i as nat),
        decreases n - i,
    {
        let b: u8 = (rest % 256) as u8;
        proof {
            lemma_le_bytes_split(v as nat, i as nat, (i + 1) as nat);
            lemma_pow256_positive(i as nat);
            vstd::arithmetic::div_mod::lemma_div_denominator(
                v as int,
                pow256(i as nat) as int,
                256,
            );
            assert(pow256((i + 1) as nat) == 256 * pow256(i as nat));
            assert(le_bytes(rest as nat, 1) =~= seq![b]) by {
                reveal_with_fuel(le_bytes, 2);
            }
        }
        out.push(b);
        rest = rest / 256;
        i = i + 1;
    }
}

/// The number that up to sixteen little-endian bytes stand for.
pub fn value_le(bytes: &[u8]) -> (v: u128)
    requires
        bytes@.len() <= 16,
    ensures
        v as nat == le_value(bytes@),
{
    let n = bytes.len();
    let mut v: u128 = 0;
    let mut i: usize = n;
    while i > 0
        invariant
            i <= n,
            n == bytes@.len(),
            n <= 16,
            v as nat == le_value(bytes@.subrange(i as int, n as int)),
        decreases i,
    {
        i = i - 1;
        proof {
            let cur = bytes@.subrange(i as int, n as int);
            let prev = bytes@.subrange(i + 1, n as int);
            assert(cur.drop_first() =~= prev);
            lemma_le_value_bound(prev);
            lemma_le_value_bound(cur);
            lemma_pow256_monotone(cur.len(), 16);
            lemma_pow256_values();
        }
        v = v * 256 + bytes[i] as u128;
    }
    proof {
        assert(bytes@.subrange(0, n as int) =~= bytes@);
    }
    v
}

/// Powers of 256 grow with the exponent.
pub proof fn lemma_pow256_monotone(a: nat, b: nat)
    requires
        a <= b,
    ensures
        pow256(a) <= pow256(b),
    decreases b,
{
    if a < b {
        lemma_pow256_monotone(a, (b - 1) as nat);
    }
}

} // verus!
