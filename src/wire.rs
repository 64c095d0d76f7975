//! Big-endian integer fields as they appear on the wire.
use vstd::prelude::*;

verus! {

/// `256` raised to the power `n`.
pub open spec fn pow256(n: nat) -> nat
    decreases n,
{
    if n == 0 {
        1
    } else {
        256 * pow256((n - 1) as nat)
    }
}

/// The `n` bytes that hold `v` in network order (most significant first).
pub open spec fn be_bytes(v: nat, n: nat) -> Seq<u8>
    decreases n,
{
    if n == 0 {
        Seq::empty()
    } else {
        be_bytes(v / 256, (n - 1) as nat).push((v % 256) as u8)
    }
}

/// The number that the bytes `s` hold in network order.
pub open spec fn be_value(s: Seq<u8>) -> nat
    decreases s.len(),
{
    if s.len() == 0 {
        0
    } else {
        be_value(s.drop_last()) * 256 + s.last() as nat
    }
}

pub proof fn lemma_be_bytes_len(v: nat, n: nat)
    ensures
        be_bytes(v, n).len() == n,
    decreases n,
{
    if n > 0 {
        lemma_be_bytes_len(v / 256, (n - 1) as nat);
    }
}

pub proof fn lemma_be_value_bound(s: Seq<u8>)
    ensures
        be_value(s) < pow256(s.len()),
    decreases s.len(),
{
    if s.len() > 0 {
        lemma_be_value_bound(s.drop_last());
    }
}

/// Reading back the bytes of a value that fits gives the value.
pub proof fn lemma_be_round_trip(v: nat, n: nat)
    requires
        v < pow256(n),
    ensures
        be_value(be_bytes(v, n)) == v,
    decreases n,
{
    if n > 0 {
        assert(v / 256 < pow256((n - 1) as nat));
        lemma_be_round_trip(v / 256, (n - 1) as nat);
        lemma_be_bytes_len(v / 256, (n - 1) as nat);
        assert(be_bytes(v, n).drop_last() =~= be_bytes(v / 256, (n - 1) as nat));
    }
}

pub proof fn lemma_pow256_facts()
    ensures
        pow256(1) == 0x100,
        pow256(2) == 0x1_0000,
        pow256(4) == 0x1_0000_0000,
        pow256(8) == 0x1_0000_0000_0000_0000,
        pow256(15) == 0x100_0000_0000_0000_0000_0000_0000_0000,
        pow256(16) == 0x1_0000_0000_0000_0000_0000_0000_0000_0000,
{
    reveal_with_fuel(pow256, 17);
}

pub proof fn lemma_pow256_mono(a: nat, b: nat)
    requires
        a <= b,
    ensures
        pow256(a) <= pow256(b),
    decreases b,
{
    if a < b {
        lemma_pow256_mono(a, (b - 1) as nat);
    }
}

/// Appends the `n` low bytes of `v` to `out`, most significant first.
pub fn push_be(out: &mut Vec<u8>, v: u128, n: usize)
    ensures
        final(out)@ == old(out)@ + be_bytes(v as nat, n as nat),
    decreases n,
{
    if n > 0 {
        push_be(out, v / 256, n - 1);
        out.push((v % 256) as u8);
        assert(be_bytes(v as nat, n as nat) =~= be_bytes((v / 256) as nat, (n - 1) as nat).push(
            (v % 256) as u8,
        ));
    } else {
        assert(be_bytes(v as nat, 0) =~= Seq::<u8>::empty());
        assert(final(out)@ =~= old(out)@ + be_bytes(v as nat, n as nat));
    }
}

/// Reads the `n` bytes at `pos` as a big-endian number.
pub fn read_be(b: &[u8], pos: usize, n: usize) -> (r: u128)
    requires
        n <= 16,
        pos + n <= b@.len(),
    ensures
        r as nat == be_value(b@.subrange(pos as int, pos + n)),
    decreases n,
{
    if n == 0 {
        0
    } else {
        let hi = read_be(b, pos, n - 1);
        proof {
            let s = b@.subrange(pos as int, pos + n);
            assert(s.drop_last() =~= b@.subrange(pos as int, pos + n - 1));
            lemma_be_value_bound(b@.subrange(pos as int, pos + n - 1));
            lemma_pow256_mono((n - 1) as nat, 15);
            lemma_pow256_facts();
            assert(hi * 256 + 255 <= u128::MAX) by (nonlinear_arith)
                requires
                    hi < 0x100_0000_0000_0000_0000_0000_0000_0000,
            ;
        }
        let _len = b.len();
        let last = b[pos + (n - 1)] as u128;
        hi * 256 + last
    }
}

/// Appends the octets of `v` to `out`.
pub fn extend_bytes(out: &mut Vec<u8>, v: &Vec<u8>)
    ensures
        final(out)@ == old(out)@ + v@,
{
    let mut i: usize = 0;
    while i < v.len()
        invariant
            i <= v@.len(),
            out@ == old(out)@ + v@.take(i as int),
        decreases v@.len() - i,
    {
        out.push(v[i]);
        i += 1;
        assert(out@ =~= old(out)@ + v@.take(i as int));
    }
    assert(v@.take(i as int) =~= v@);
}

/// A copy of the octets of `b` from `start` up to `end`.
pub fn copy_range(b: &[u8], start: usize, end: usize) -> (r: Vec<u8>)
    requires
        start <= end <= b@.len(),
    ensures
        r@ == b@.subrange(start as int, end as int),
{
    let mut r: Vec<u8> = Vec::new();
    let mut i: usize = start;
    while i < end
        invariant
            start <= i <= end <= b@.len(),
            r@ == b@.subrange(start as int, i as int),
        decreases end - i,
    {
        r.push(b[i]);
        i += 1;
        assert(r@ =~= b@.subrange(start as int, i as int));
    }
    r
}

} // verus!
