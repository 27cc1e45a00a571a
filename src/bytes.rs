//! Big-endian unsigned integers of a fixed width.

use vstd::prelude::*;

verus! {

/// `256^w`.
pub open spec fn pow256(w: nat) -> nat
    decreases w,
{
    if w == 0 {
        1
    } else {
        256 * pow256((w - 1) as nat)
    }
}

/// The unsigned integer that the bytes `s` hold, most significant first.
pub open spec fn be_value(s: Seq<u8>) -> nat
    decreases s.len(),
{
    if s.len() == 0 {
        0
    } else {
        be_value(s.drop_last()) * 256 + s.last() as nat
    }
}

/// The `w` low-order bytes of `v`, most significant first.
pub open spec fn be_bytes(v: nat, w: nat) -> Seq<u8>
    decreases w,
{
    if w == 0 {
        Seq::empty()
    } else {
        be_bytes(v / 256, (w - 1) as nat).push((v % 256) as u8)
    }
}

pub proof fn lemma_pow256_positive(w: nat)
    ensures
        pow256(w) >= 1,
    decreases w,
{
    if w > 0 {
        lemma_pow256_positive((w - 1) as nat);
    }
}

pub proof fn lemma_be_bytes_len(v: nat, w: nat)
    ensures
        be_bytes(v, w).len() == w,
    decreases w,
{
    if w > 0 {
        lemma_be_bytes_len(v / 256, (w - 1) as nat);
    }
}

pub proof fn lemma_be_value_bound(s: Seq<u8>)
    ensures
        be_value(s) < pow256(s.len()),
    decreases s.len(),
{
    if s.len() > 0 {
        lemma_be_value_bound(s.drop_last());
        let a = be_value(s.drop_last());
        let p = pow256((s.len() - 1) as nat);
        let b = s.last() as nat;
        assert(a * 256 + b < 256 * p) by (nonlinear_arith)
            requires
                a < p,
                b < 256,
        ;
    }
}

/// Reading back what `be_bytes` wrote gives the value, when it fits.
pub proof fn lemma_be_round_trip(v: nat, w: nat)
    requires
        v < pow256(w),
    ensures
        be_value(be_bytes(v, w)) == v,
    decreases w,
{
    if w > 0 {
        let p = pow256((w - 1) as nat);
        assert(v / 256 < p) by (nonlinear_arith)
            requires
                v < 256 * p,
        ;
        lemma_be_round_trip(v / 256, (w - 1) as nat);
        let s = be_bytes(v, w);
        assert(s.drop_last() =~= be_bytes(v / 256, (w - 1) as nat));
        assert(v == (v / 256) * 256 + v % 256) by (nonlinear_arith);
    } else {
        assert(v == 0);
    }
}

/// Appends the `w` low-order bytes of `v` to `out`, most significant first.
pub fn push_be(out: &mut Vec<u8>, v: u128, w: usize)
    requires
        w <= 16,
    ensures
        final(out)@ == old(out)@ + be_bytes(v as nat, w as nat),
{
    let mut buf: Vec<u8> = Vec::new();
    let mut k: usize = 0;
    while k < w
        invariant
            k <= w,
            buf@.len() == k,
            forall|i: int| 0 <= i < k ==> buf@[i] == 0,
        decreases w - k,
    {
        buf.push(0u8);
        k = k + 1;
    }
    let mut rem: u128 = v;
    let mut i: usize = w;
    while i > 0
        invariant
            i <= w,
            buf@.len() == w,
            be_bytes(v as nat, w as nat) == be_bytes(rem as nat, i as nat) + buf@.subrange(
                i as int,
                w as int,
            ),
        decreases i,
    {
        let ghost tail = buf@.subrange(i as int, w as int);
        let b: u8 = (rem % 256) as u8;
        buf.set(i - 1, b);
        proof {
            assert(buf@.subrange(i - 1, w as int) =~= seq![b] + tail);
            assert(be_bytes(rem as nat, i as nat) == be_bytes((rem / 256) as nat, (i - 1) as nat).push(b));
            assert(be_bytes((rem / 256) as nat, (i - 1) as nat).push(b) + tail =~= be_bytes(
                (rem / 256) as nat,
                (i - 1) as nat,
            ) + (seq![b] + tail));
        }
        rem = rem / 256;
        i = i - 1;
    }
    assert(buf@.subrange(0, w as int) =~= buf@);
    assert(be_bytes(rem as nat, 0) =~= Seq::<u8>::empty());
    assert(be_bytes(v as nat, w as nat) =~= buf@);
    let mut j: usize = 0;
    let ghost start = out@;
    while j < w
        invariant
            j <= w,
            buf@.len() == w,
            out@ == start + buf@.subrange(0, j as int),
        decreases w - j,
    {
        out.push(buf[j]);
        assert(buf@.subrange(0, j + 1) =~= buf@.subrange(0, j as int).push(buf@[j as int]));
        j = j + 1;
    }
    assert(buf@.subrange(0, w as int) =~= buf@);
}

/// Reads the `w` bytes of `b` that start at `pos` as a big-endian integer.
pub fn read_be(b: &Vec<u8>, pos: usize, w: usize) -> (r: u128)
    requires
        w <= 16,
        pos + w <= b@.len(),
    ensures
        r as nat == be_value(b@.subrange(pos as int, pos + w)),
{
    let n = b.len();
    let mut acc: u128 = 0;
    let mut k: usize = 0;
    while k < w
        invariant
            k <= w,
            n == b@.len(),
            w <= 16,
            pos + w <= b@.len(),
            acc as nat == be_value(b@.subrange(pos as int, pos + k)),
        decreases w - k,
    {
        let ghost s = b@.subrange(pos as int, pos + k + 1);
        proof {
            assert(s.drop_last() =~= b@.subrange(pos as int, pos + k));
            lemma_be_value_bound(b@.subrange(pos as int, pos + k));
            lemma_pow256_bound(k as nat);
        }
        let x: u128 = b[pos + k] as u128;
        assert(acc * 256 + x <= u128::MAX) by (nonlinear_arith)
            requires
                acc < pow256(k as nat),
                pow256(k as nat) <= pow256(15),
                pow256(15) == 0x1000000000000000000000000000000,
                x < 256,
        ;
        acc = acc * 256 + x;
        k = k + 1;
    }
    acc
}

proof fn lemma_pow256_bound(k: nat)
    requires
        k < 16,
    ensures
        pow256(k) <= pow256(15),
        pow256(15) == 0x1000000000000000000000000000000,
    decreases 15 - k,
{
    reveal_with_fuel(pow256, 16);
    if k < 15 {
        lemma_pow256_bound(k + 1);
        lemma_pow256_positive(k);
    }
}

} // verus!
