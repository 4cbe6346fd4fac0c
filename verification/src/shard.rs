//! Partitioning the clipped pixel sequence into contiguous per-worker
//! shards. Shard `i` of `n` covers `span = len / n` pixels; the last shard
//! extends to the end of the sequence, so the remainder is painted rather
//! than dropped.

use vstd::arithmetic::div_mod::{lemma_fundamental_div_mod, lemma_mod_bound};
use vstd::prelude::*;

verus! {

use crate::types::Pixel;

/// Shard `i` of `n`: the `i`-th contiguous slice of `span = len / n`
/// pixels, except that the last shard runs to the end of the sequence.
pub open spec fn spec_shard(s: Seq<Pixel>, n: int, i: int) -> Seq<Pixel>
    recommends
        1 <= n,
        0 <= i < n,
{
    let span = s.len() as int / n;
    if i < n - 1 {
        s.subrange(i * span, (i + 1) * span)
    } else {
        s.subrange((n - 1) * span, s.len() as int)
    }
}

/// All `n` shards of `s`, in index order.
pub open spec fn spec_partition(s: Seq<Pixel>, n: int) -> Seq<Seq<Pixel>>
    recommends
        1 <= n,
{
    Seq::new(n as nat, |i: int| spec_shard(s, n, i))
}

/// Where the first `k` shards of `s` end: after `k * span` pixels, or at
/// the very end once all `n` shards are taken.
pub open spec fn partition_boundary(s: Seq<Pixel>, n: int, k: int) -> int
    recommends
        1 <= n,
        0 <= k <= n,
{
    if k == n {
        s.len() as int
    } else {
        k * (s.len() as int / n)
    }
}

/// The quotient times the divisor does not exceed the dividend.
proof fn lemma_div_mul_le(len: int, n: int)
    requires
        0 <= len,
        1 <= n,
    ensures
        n * (len / n) <= len,
        0 <= len / n,
{
    lemma_fundamental_div_mod(len, n);
    lemma_mod_bound(len, n);
    assert(0 <= len / n) by (nonlinear_arith)
        requires
            0 <= len,
            1 <= n,
    ;
}

/// The first `k` shards together cover exactly the first
/// `partition_boundary(s, n, k)` pixels of `s`, in order.
proof fn lemma_partition_prefix(s: Seq<Pixel>, n: int, k: int)
    requires
        1 <= n,
        0 <= k <= n,
    ensures
        spec_partition(s, n).take(k).flatten() == s.take(partition_boundary(s, n, k)),
    decreases k,
{
    let span = s.len() as int / n;
    lemma_div_mul_le(s.len() as int, n);
    if k == 0 {
        assert(spec_partition(s, n).take(0) =~= Seq::<Seq<Pixel>>::empty());
        assert(Seq::<Seq<Pixel>>::empty().flatten() =~= Seq::<Pixel>::empty());
        assert(s.take(0) =~= Seq::<Pixel>::empty());
    } else {
        lemma_partition_prefix(s, n, k - 1);
        let pref = spec_partition(s, n).take(k - 1);
        let shard = spec_shard(s, n, k - 1);
        assert(spec_partition(s, n).take(k) =~= pref.push(shard));
        pref.lemma_flatten_push(shard);
        assert((k - 1) * span <= k * span && k * span <= n * span) by (nonlinear_arith)
            requires
                0 <= span,
                1 <= k <= n,
        ;
        assert((k - 1) * span == k * span - span) by (nonlinear_arith);
        if k < n {
            assert(s.take((k - 1) * span) + s.subrange((k - 1) * span, k * span) =~= s.take(
                k * span,
            ));
        } else {
            assert(s.take((k - 1) * span) + s.subrange((k - 1) * span, s.len() as int) =~= s.take(
                s.len() as int,
            ));
        }
    }
}

/// Partition completeness: concatenating all shards in index order
/// reproduces the original sequence exactly — no pixel lost, none
/// duplicated — for every length and every worker count `n >= 1`.
pub proof fn lemma_partition_complete(s: Seq<Pixel>, n: int)
    requires
        1 <= n,
    ensures
        spec_partition(s, n).flatten() == s,
{
    lemma_partition_prefix(s, n, n);
    assert(spec_partition(s, n).take(n) =~= spec_partition(s, n));
    assert(s.take(s.len() as int) =~= s);
}

/// Splits the pixels into `n` contiguous shards, the last absorbing the
/// remainder of the integer division.
pub fn partition(pixels: &Vec<Pixel>, n: usize) -> (out: Vec<Vec<Pixel>>)
    requires
        1 <= n,
    ensures
        out@.len() == n as int,
        forall|i: int| 0 <= i < n ==> (#[trigger] out@[i])@ == spec_partition(pixels@, n as int)[i],
{
    let len = pixels.len();
    let span = len / n;
    let mut out: Vec<Vec<Pixel>> = Vec::new();
    let mut i: usize = 0;
    while i < n
        invariant
            1 <= n,
            len == pixels@.len(),
            span as int == len as int / n as int,
            i <= n,
            out@.len() == i,
            forall|k: int|
                0 <= k < i ==> (#[trigger] out@[k])@ == spec_partition(pixels@, n as int)[k],
        decreases n - i,
    {
        proof {
            lemma_div_mul_le(len as int, n as int);
            assert((i as int) * (span as int) <= (n as int) * (span as int)
                && ((i as int) + 1) * (span as int) <= (n as int) * (span as int)
                && ((i as int) + 1) * (span as int) == (i as int) * (span as int) + span as int)
                by (nonlinear_arith)
                requires
                    0 <= span as int,
                    0 <= i as int,
                    (i as int) < (n as int),
            ;
        }
        let start = i * span;
        let end = if i == n - 1 {
            len
        } else {
            start + span
        };
        let mut shard: Vec<Pixel> = Vec::new();
        let mut j: usize = start;
        while j < end
            invariant
                start <= j <= end,
                end <= len,
                len == pixels@.len(),
                shard@ == pixels@.subrange(start as int, j as int),
            decreases end - j,
        {
            shard.push(pixels[j]);
            proof {
                assert(pixels@.subrange(start as int, j + 1) =~= pixels@.subrange(
                    start as int,
                    j as int,
                ).push(pixels@[j as int]));
            }
            j = j + 1;
        }
        out.push(shard);
        i = i + 1;
    }
    out
}

} // verus!
