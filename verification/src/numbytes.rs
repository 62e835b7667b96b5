use vstd::prelude::*;

verus! {

/// The unsigned value of a byte string read in big-endian order.
pub open spec fn be_val(s: Seq<u8>) -> nat
    decreases s.len(),
{
    if s.len() == 0 {
        0
    } else {
        (256 * be_val(s.drop_last()) + s.last()) as nat
    }
}

/// 256 to the n-th power: one more than the largest value n bytes can hold.
pub open spec fn pow256(n: nat) -> nat
    decreases n,
{
    if n == 0 {
        1
    } else {
        256 * pow256((n - 1) as nat)
    }
}

/// The n-byte big-endian encoding of v; the inverse of `be_val` for
/// v < pow256(n).
pub open spec fn be_bytes(v: nat, n: nat) -> Seq<u8>
    decreases n,
{
    if n == 0 {
        Seq::empty()
    } else {
        be_bytes(v / 256, (n - 1) as nat).push((v % 256) as u8)
    }
}

pub proof fn lemma_pow256_monotone(i: nat, j: nat)
    requires
        i <= j,
    ensures
        pow256(i) <= pow256(j),
    decreases j,
{
    if i < j {
        lemma_pow256_monotone(i, (j - 1) as nat);
        assert(pow256((j - 1) as nat) <= 256 * pow256((j - 1) as nat)) by (nonlinear_arith);
    }
}

pub proof fn lemma_be_val_bound(s: Seq<u8>)
    ensures
        be_val(s) < pow256(s.len()),
    decreases s.len(),
{
    if s.len() > 0 {
        lemma_be_val_bound(s.drop_last());
        assert(256 * be_val(s.drop_last()) + s.last() < 256 * pow256((s.len() - 1) as nat))
            by (nonlinear_arith)
            requires
                be_val(s.drop_last()) < pow256((s.len() - 1) as nat),
                s.last() < 256,
        ;
    }
}

pub proof fn lemma_be_bytes_len(v: nat, n: nat)
    ensures
        be_bytes(v, n).len() == n,
    decreases n,
{
    if n > 0 {
        lemma_be_bytes_len(v / 256, (n - 1) as nat);
    }
}

/// Encoding the value read from a byte string gives the string back.
pub proof fn lemma_be_bytes_of_val(s: Seq<u8>)
    ensures
        be_bytes(be_val(s), s.len()) == s,
    decreases s.len(),
{
    if s.len() == 0 {
        assert(be_bytes(be_val(s), 0) =~= s);
    } else {
        let q = be_val(s.drop_last());
        let r = s.last() as nat;
        let v = 256 * q + r;
        assert(v / 256 == q && v % 256 == r) by (nonlinear_arith)
            requires
                r < 256,
                v == 256 * q + r,
        ;
        lemma_be_bytes_of_val(s.drop_last());
        assert(be_bytes(v, s.len()) =~= s);
    }
}

/// Reading back an n-byte encoding gives the encoded value.
pub proof fn lemma_be_val_of_bytes(v: nat, n: nat)
    requires
        v < pow256(n),
    ensures
        be_val(be_bytes(v, n)) == v,
    decreases n,
{
    if n > 0 {
        assert(v / 256 < pow256((n - 1) as nat) && 256 * (v / 256) + v % 256 == v && v % 256 < 256)
            by (nonlinear_arith)
            requires
                v < pow256(n),
                pow256(n) == 256 * pow256((n - 1) as nat),
        ;
        lemma_be_val_of_bytes(v / 256, (n - 1) as nat);
        let s = be_bytes(v, n);
        assert(s.drop_last() =~= be_bytes(v / 256, (n - 1) as nat));
        lemma_be_bytes_len(v / 256, (n - 1) as nat);
    }
}

/// Reads `count` bytes at `start` as one big-endian unsigned integer.
pub fn read_be(buf: &[u8], start: usize, count: usize) -> (r: u64)
    requires
        start + count <= buf@.len(),
        count <= 8,
    ensures
        r == be_val(buf@.subrange(start as int, (start + count) as int)),
{
    let n: usize = buf.len();
    let mut acc: u64 = 0;
    let mut i: usize = 0;
    proof {
        assert(buf@.subrange(start as int, start as int) =~= Seq::<u8>::empty());
    }
    while i < count
        invariant
            n == buf@.len(),
            start + count <= n,
            count <= 8,
            i <= count,
            acc == be_val(buf@.subrange(start as int, (start + i) as int)),
        decreases count - i,
    {
        proof {
            let prefix = buf@.subrange(start as int, (start + i) as int);
            lemma_be_val_bound(prefix);
            lemma_pow256_monotone(i as nat, 7);
            assert(pow256(7) == 0x100000000000000) by {
                reveal_with_fuel(pow256, 9);
            }
            assert(acc < 0x100000000000000);
            assert(buf@.subrange(start as int, (start + i + 1) as int).drop_last() =~= prefix);
        }
        acc = acc * 256 + (buf[start + i] as u64);
        i = i + 1;
    }
    acc
}

} // verus!
