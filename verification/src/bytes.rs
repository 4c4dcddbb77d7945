use vstd::prelude::*;

verus! {

/// 256 raised to `n`: the number of values `n` bytes can hold.
pub open spec fn pow256(n: nat) -> int
    decreases n,
{
    if n == 0 {
        1
    } else {
        256 * pow256((n - 1) as nat)
    }
}

/// The big-endian encoding of `x` in exactly `n` bytes (truncating to the
/// low `n` bytes if `x` does not fit).
pub open spec fn be_bytes(x: int, n: nat) -> Seq<u8>
    decreases n,
{
    if n == 0 {
        Seq::empty()
    } else {
        be_bytes(x / 256, (n - 1) as nat) + seq![(x % 256) as u8]
    }
}

/// The number a big-endian byte string denotes.
pub open spec fn from_be(s: Seq<u8>) -> int
    decreases s.len(),
{
    if s.len() == 0 {
        0
    } else {
        from_be(s.drop_last()) * 256 + s.last()
    }
}

pub proof fn lemma_pow256_pos(n: nat)
    ensures
        pow256(n) >= 1,
    decreases n,
{
    if n > 0 {
        lemma_pow256_pos((n - 1) as nat);
    }
}

pub proof fn lemma_be_bytes_len(x: int, n: nat)
    ensures
        be_bytes(x, n).len() == n,
    decreases n,
{
    if n > 0 {
        lemma_be_bytes_len(x / 256, (n - 1) as nat);
    }
}

pub proof fn lemma_from_be_bound(s: Seq<u8>)
    ensures
        0 <= from_be(s) < pow256(s.len()),
    decreases s.len(),
{
    if s.len() > 0 {
        lemma_from_be_bound(s.drop_last());
    }
}

/// Reading back the big-endian encoding of a value that fits recovers the
/// value; in particular the encoding is injective on values that fit.
pub proof fn lemma_be_round(x: int, n: nat)
    requires
        0 <= x < pow256(n),
    ensures
        from_be(be_bytes(x, n)) == x,
    decreases n,
{
    if n > 0 {
        lemma_be_bytes_len(x / 256, (n - 1) as nat);
        assert(be_bytes(x, n).drop_last() =~= be_bytes(x / 256, (n - 1) as nat));
        assert(x / 256 < pow256((n - 1) as nat)) by (nonlinear_arith)
            requires
                0 <= x < 256 * pow256((n - 1) as nat),
        ;
        lemma_be_round(x / 256, (n - 1) as nat);
    }
}

/// Big-endian encoding of `x` in `n` bytes, `n` at most 16.
pub fn be_bytes_exec(x: u128, n: u32) -> (r: Vec<u8>)
    requires
        n <= 16,
    ensures
        r@ == be_bytes(x as int, n as nat),
        r@.len() == n,
    decreases n,
{
    proof {
        lemma_be_bytes_len(x as int, n as nat);
    }
    if n == 0 {
        Vec::new()
    } else {
        let mut r = be_bytes_exec(x / 256, n - 1);
        r.push((x % 256) as u8);
        proof {
            assert(r@ =~= be_bytes(x as int, n as nat));
        }
        r
    }
}

/// The number a big-endian byte string of at most 16 bytes denotes.
pub fn from_be_exec(s: &[u8]) -> (r: u128)
    requires
        s@.len() <= 16,
    ensures
        r == from_be(s@),
{
    let ghost whole = s@;
    let mut acc: u128 = 0;
    let mut i: usize = 0;
    proof {
        assert(whole.subrange(0, 0) =~= Seq::<u8>::empty());
    }
    while i < s.len()
        invariant
            i <= s@.len() <= 16,
            s@ == whole,
            acc == from_be(whole.subrange(0, i as int)),
        decreases s@.len() - i,
    {
        proof {
            lemma_from_be_bound(whole.subrange(0, i as int));
            lemma_pow256_bound16(whole.subrange(0, i as int).len());
            assert(whole.subrange(0, i + 1).drop_last() =~= whole.subrange(0, i as int));
        }
        acc = acc * 256 + (s[i] as u128);
        i += 1;
    }
    proof {
        assert(whole.subrange(0, whole.len() as int) =~= whole);
    }
    acc
}

/// `n` bytes, `n` at most 15, denote a number below `2^120`.
proof fn lemma_pow256_bound16(n: nat)
    requires
        n <= 15,
    ensures
        pow256(n) <= 0x1000000000000000000000000000000,
    decreases n,
{
    reveal_with_fuel(pow256, 17);
    assert(pow256(15) == 0x1000000000000000000000000000000);
    lemma_pow256_mono(n, 15);
}

/// Whether two 32-byte strings are equal.
pub fn bytes32_eq(a: &[u8; 32], b: &[u8; 32]) -> (r: bool)
    ensures
        r == (a@ == b@),
{
    let mut i: usize = 0;
    while i < 32
        invariant
            i <= 32,
            forall|k: int| 0 <= k < i ==> a@[k] == b@[k],
        decreases 32 - i,
    {
        if a[i] != b[i] {
            return false;
        }
        i += 1;
    }
    proof {
        assert(a@ =~= b@);
    }
    true
}

/// Appends all of `src` to `dst`.
pub fn append_bytes(dst: &mut Vec<u8>, src: &[u8])
    ensures
        final(dst)@ == old(dst)@ + src@,
{
    let ghost start = dst@;
    let mut i: usize = 0;
    proof {
        assert(dst@ =~= start + src@.subrange(0, 0));
    }
    while i < src.len()
        invariant
            i <= src@.len(),
            dst@ == start + src@.subrange(0, i as int),
        decreases src@.len() - i,
    {
        dst.push(src[i]);
        proof {
            assert(dst@ =~= start + src@.subrange(0, i + 1));
        }
        i += 1;
    }
    proof {
        assert(src@.subrange(0, src@.len() as int) =~= src@);
    }
}

proof fn lemma_pow256_mono(a: nat, b: nat)
    requires
        a <= b,
    ensures
        pow256(a) <= pow256(b),
    decreases b,
{
    if a < b {
        lemma_pow256_mono(a, (b - 1) as nat);
        lemma_pow256_pos((b - 1) as nat);
    }
}

} // verus!
