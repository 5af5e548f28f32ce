//! Little-endian integers as byte strings.

use vstd::prelude::*;

verus! {

/// The number that a little-endian byte string denotes.
pub open spec fn le_value(s: Seq<u8>) -> nat
    decreases s.len(),
{
    if s.len() == 0 {
        0
    } else {
        s[0] as nat + 256 * le_value(s.skip(1))
    }
}

/// The `n` low bytes of `v`, least significant first.
pub open spec fn le_bytes(v: nat, n: nat) -> Seq<u8>
    decreases n,
{
    if n == 0 {
        Seq::empty()
    } else {
        seq![(v % 256) as u8] + le_bytes(v / 256, (n - 1) as nat)
    }
}

/// `256` to the power `n`: how many values `n` bytes can hold.
pub open spec fn pow256(n: nat) -> nat
    decreases n,
{
    if n == 0 {
        1
    } else {
        256 * pow256((n - 1) as nat)
    }
}

/// `le_bytes` has the length asked for.
pub proof fn lemma_le_bytes_len(v: nat, n: nat)
    ensures
        le_bytes(v, n).len() == n,
    decreases n,
{
    if n > 0 {
        lemma_le_bytes_len(v / 256, (n - 1) as nat);
    }
}

/// A byte string denotes a number below `pow256` of its length.
pub proof fn lemma_le_value_bound(s: Seq<u8>)
    ensures
        le_value(s) < pow256(s.len()),
    decreases s.len(),
{
    if s.len() > 0 {
        lemma_le_value_bound(s.skip(1));
        assert(s.skip(1).len() == (s.len() - 1) as nat);
    }
}

/// Reading back what was written gives the number, if it fits.
pub proof fn lemma_le_value_of_bytes(v: nat, n: nat)
    requires
        v < pow256(n),
    ensures
        le_value(le_bytes(v, n)) == v,
        le_bytes(v, n).len() == n,
    decreases n,
{
    if n > 0 {
        lemma_le_value_of_bytes(v / 256, (n - 1) as nat);
        lemma_le_bytes_len(v, n);
        assert(le_bytes(v, n).skip(1) =~= le_bytes(v / 256, (n - 1) as nat));
    }
}

/// Writing what was read gives the byte string.
pub proof fn lemma_le_bytes_of_value(s: Seq<u8>)
    ensures
        le_bytes(le_value(s), s.len()) == s,
    decreases s.len(),
{
    if s.len() > 0 {
        let rest = s.skip(1);
        lemma_le_bytes_of_value(rest);
        assert(le_value(s) % 256 == s[0]);
        assert(le_value(s) / 256 == le_value(rest));
        assert(seq![s[0]] + rest =~= s);
    } else {
        assert(s =~= Seq::empty());
    }
}

/// Two byte strings of one length that denote one number are equal.
pub proof fn lemma_le_value_injective(a: Seq<u8>, b: Seq<u8>)
    requires
        a.len() == b.len(),
        le_value(a) == le_value(b),
    ensures
        a == b,
{
    lemma_le_bytes_of_value(a);
    lemma_le_bytes_of_value(b);
}

/// `pow256` at the widths in use.
pub proof fn lemma_pow256_widths()
    ensures
        pow256(1) == 0x100,
        pow256(2) == 0x1_0000,
        pow256(4) == 0x1_0000_0000,
        pow256(8) == 0x1_0000_0000_0000_0000,
        pow256(16) == 0x1_0000_0000_0000_0000_0000_0000_0000_0000,
{
    reveal_with_fuel(pow256, 17);
}

/// `pow256` grows with its argument.
pub proof fn lemma_pow256_monotonic(a: nat, b: nat)
    requires
        a <= b,
    ensures
        pow256(a) <= pow256(b),
    decreases b,
{
    if a < b {
        lemma_pow256_monotonic(a, (b - 1) as nat);
    }
}

/// Appends the `n` low bytes of `v`.
pub fn put_le(out: &mut Vec<u8>, v: u64, n: usize)
    ensures
        final(out)@ == old(out)@ + le_bytes(v as nat, n as nat),
{
    let mut x: u64 = v;
    let mut i: usize = 0;
    proof {
        assert(out@ + le_bytes(x as nat, n as nat) =~= old(out)@ + le_bytes(v as nat, n as nat));
    }
    while i < n
        invariant
            i <= n,
            out@ + le_bytes(x as nat, (n - i) as nat) == old(out)@ + le_bytes(v as nat, n as nat),
        decreases n - i,
    {
        let ghost before = out@;
        let ghost rest = le_bytes((x / 256) as nat, (n - i - 1) as nat);
        assert(le_bytes(x as nat, (n - i) as nat) == seq![(x % 256) as u8] + rest);
        out.push((x % 256) as u8);
        assert(out@ + rest =~= before + (seq![(x % 256) as u8] + rest));
        x = x / 256;
        i = i + 1;
    }
    assert(out@ + Seq::<u8>::empty() =~= out@);
}

/// The number that up to eight bytes denote.
pub fn get_le(s: &[u8]) -> (v: u64)
    requires
        s@.len() <= 8,
    ensures
        v == le_value(s@),
{
    let mut i: usize = s.len();
    let mut v: u64 = 0;
    assert(s@.skip(i as int) =~= Seq::<u8>::empty());
    while i > 0
        invariant
            i <= s@.len() <= 8,
            v == le_value(s@.skip(i as int)),
        decreases i,
    {
        i = i - 1;
        let ghost tail = s@.skip(i as int);
        proof {
            assert(tail.skip(1) =~= s@.skip(i + 1));
            lemma_le_value_bound(tail);
            lemma_pow256_widths();
            lemma_pow256_monotonic(tail.len(), 8);
        }
        v = v * 256 + s[i] as u64;
    }
    assert(s@.skip(0) =~= s@);
    v
}

/// The number that sixteen bytes denote.
pub fn get_le16(s: &[u8; 16]) -> (v: u128)
    ensures
        v == le_value(s@),
{
    let mut i: usize = 16;
    let mut v: u128 = 0;
    assert(s@.skip(i as int) =~= Seq::<u8>::empty());
    while i > 0
        invariant
            i <= 16,
            s@.len() == 16,
            v == le_value(s@.skip(i as int)),
        decreases i,
    {
        i = i - 1;
        let ghost tail = s@.skip(i as int);
        proof {
            assert(tail.skip(1) =~= s@.skip(i + 1));
            lemma_le_value_bound(tail);
            lemma_pow256_widths();
            lemma_pow256_monotonic(tail.len(), 16);
        }
        v = v * 256 + s[i] as u128;
    }
    assert(s@.skip(0) =~= s@);
    v
}

} // verus!
