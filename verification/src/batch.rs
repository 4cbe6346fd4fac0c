//! Grouping a shard's encoded commands into fixed-size batches, each
//! concatenated into one payload per network write. Every batch holds
//! `batch_size` commands except the last, which may be shorter.

use vstd::arithmetic::div_mod::lemma_fundamental_div_mod_converse;
use vstd::prelude::*;
use vstd::seq_lib::lemma_flatten_concat;
use vstd::string::StringExecFns;

verus! {

use crate::encode::px_cmd_chars;
use crate::types::Pixel;

/// The encoded command of each pixel of a shard, in shard order.
pub open spec fn spec_cmds(shard: Seq<Pixel>) -> Seq<Seq<char>> {
    shard.map_values(|p: Pixel| px_cmd_chars(p))
}

/// How many batches a sequence of `len` commands yields at `k` commands per
/// batch: the division rounded up.
pub open spec fn spec_batch_count(len: int, k: int) -> int
    recommends
        1 <= k,
        0 <= len,
{
    (len + k - 1) / k
}

/// Batch `j` covers the commands from `j * k` up to the end of the
/// sequence or of the batch, whichever comes first.
pub open spec fn spec_batch_end(len: int, k: int, j: int) -> int {
    if (j + 1) * k <= len {
        (j + 1) * k
    } else {
        len
    }
}

/// The batches of a command sequence: batch `j` is the concatenation, in
/// order, of commands `j * k` up to `spec_batch_end(len, k, j)`.
pub open spec fn spec_batches(cmds: Seq<Seq<char>>, k: int) -> Seq<Seq<char>>
    recommends
        1 <= k,
{
    Seq::new(
        spec_batch_count(cmds.len() as int, k) as nat,
        |j: int| cmds.subrange(j * k, spec_batch_end(cmds.len() as int, k, j)).flatten(),
    )
}

/// The batch count brackets the command count: all batches but the last are
/// full, and the last is never empty.
pub proof fn lemma_batch_count_bounds(len: int, k: int)
    requires
        1 <= k,
        0 <= len,
    ensures
        len == 0 ==> spec_batch_count(len, k) == 0,
        len > 0 ==> (spec_batch_count(len, k) - 1) * k < len,
        len <= spec_batch_count(len, k) * k,
{
    let q = len / k;
    let r = len % k;
    vstd::arithmetic::div_mod::lemma_fundamental_div_mod(len, k);
    vstd::arithmetic::div_mod::lemma_mod_bound(len, k);
    if r == 0 {
        assert(q * k == k * q && (q - 1) * k == q * k - k) by (nonlinear_arith);
        lemma_fundamental_div_mod_converse(len + k - 1, k, q, k - 1);
    } else {
        assert(q * k == k * q && (q + 1) * k == k * q + k) by (nonlinear_arith);
        lemma_fundamental_div_mod_converse(len + k - 1, k, q + 1, r - 1);
    }
}

/// The first `j` batches together cover exactly the first
/// `min(j * k, len)` commands, in order.
proof fn lemma_batches_prefix(cmds: Seq<Seq<char>>, k: int, j: int)
    requires
        1 <= k,
        0 <= j <= spec_batch_count(cmds.len() as int, k),
    ensures
        spec_batches(cmds, k).take(j).flatten() == cmds.take(
            if j * k <= cmds.len() {
                j * k
            } else {
                cmds.len() as int
            },
        ).flatten(),
    decreases j,
{
    let len = cmds.len() as int;
    let count = spec_batch_count(len, k);
    lemma_batch_count_bounds(len, k);
    if j == 0 {
        assert(spec_batches(cmds, k).take(0) =~= Seq::<Seq<char>>::empty());
        assert(cmds.take(0) =~= Seq::<Seq<char>>::empty());
        assert(Seq::<Seq<char>>::empty().flatten() =~= Seq::<char>::empty());
    } else {
        lemma_batches_prefix(cmds, k, j - 1);
        let pref = spec_batches(cmds, k).take(j - 1);
        let batch = spec_batches(cmds, k)[j - 1];
        assert(spec_batches(cmds, k).take(j) =~= pref.push(batch));
        pref.lemma_flatten_push(batch);
        assert((j - 1) * k == j * k - k && (j - 1) * k <= (count - 1) * k) by (nonlinear_arith)
            requires
                1 <= k && 1 <= j <= count,
        ;
        let lo = (j - 1) * k;
        let hi = spec_batch_end(len, k, j - 1);
        assert(lo <= len);
        assert(cmds.take(hi) =~= cmds.take(lo) + cmds.subrange(lo, hi));
        lemma_flatten_concat(cmds.take(lo), cmds.subrange(lo, hi));
    }
}

/// Batch integrity: concatenating all batches' contents, in batch order,
/// reproduces the shard's full command stream, for every command sequence
/// and every `batch_size >= 1`.
pub proof fn lemma_batches_concat(cmds: Seq<Seq<char>>, k: int)
    requires
        1 <= k,
    ensures
        spec_batches(cmds, k).flatten() == cmds.flatten(),
{
    let len = cmds.len() as int;
    let count = spec_batch_count(len, k);
    lemma_batch_count_bounds(len, k);
    lemma_batches_prefix(cmds, k, count);
    assert(spec_batches(cmds, k).take(count) =~= spec_batches(cmds, k));
    assert(cmds.take(len) =~= cmds);
}

/// Encodes a shard and groups its commands into batches of `batch_size`
/// pixels, each batch one string: the payload of one network write.
pub fn batches(shard: &Vec<Pixel>, batch_size: usize) -> (out: Vec<String>)
    requires
        1 <= batch_size,
    ensures
        out@.len() == spec_batch_count(shard@.len() as int, batch_size as int),
        forall|j: int|
            0 <= j < out@.len() ==> (#[trigger] out@[j])@ == spec_batches(
                spec_cmds(shard@),
                batch_size as int,
            )[j],
{
    let ghost cmds = spec_cmds(shard@);
    let ghost k = batch_size as int;
    let n = shard.len();
    let mut out: Vec<String> = Vec::new();
    let mut i: usize = 0;
    proof {
        lemma_batch_count_bounds(n as int, k);
        lemma_batch_count_bounds(0, k);
    }
    while i < n
        invariant
            1 <= batch_size,
            k == batch_size as int,
            n == shard@.len(),
            cmds == spec_cmds(shard@),
            i <= n,
            i as int == out@.len() * k || (i == n && n <= out@.len() * k),
            out@.len() == spec_batch_count(i as int, k),
            forall|j: int|
                0 <= j < out@.len() ==> (#[trigger] out@[j])@ == spec_batches(cmds, k)[j],
        decreases n - i,
    {
        let ghost j = out@.len() as int;
        let ghost start = i as int;
        proof {
            lemma_batch_count_bounds(n as int, k);
            assert(j * k < spec_batch_count(n as int, k) * k) by (nonlinear_arith)
                requires
                    j * k < n as int,
                    n as int <= spec_batch_count(n as int, k) * k,
            ;
            assert(j < spec_batch_count(n as int, k)) by (nonlinear_arith)
                requires
                    j * k < spec_batch_count(n as int, k) * k,
                    1 <= k,
            ;
        }
        let mut payload = String::new();
        let mut c: usize = 0;
        proof {
            assert(cmds.subrange(start, start) =~= Seq::<Seq<char>>::empty());
            assert(Seq::<Seq<char>>::empty().flatten() =~= Seq::<char>::empty());
        }
        while c < batch_size && i < n
            invariant
                1 <= batch_size,
                k == batch_size as int,
                n == shard@.len(),
                cmds == spec_cmds(shard@),
                cmds.len() == n as int,
                c <= batch_size,
                0 <= start,
                start + c == i as int,
                i <= n,
                payload@ == cmds.subrange(start, i as int).flatten(),
            decreases n - i,
        {
            let cmd = shard[i].to_cmd();
            payload.append(cmd.as_str());
            proof {
                assert(cmds.subrange(start, i + 1) =~= cmds.subrange(start, i as int).push(
                    cmds[i as int],
                ));
                cmds.subrange(start, i as int).lemma_flatten_push(cmds[i as int]);
            }
            i = i + 1;
            c = c + 1;
        }
        out.push(payload);
        proof {
            assert(start == j * k);
            assert((j + 1) * k == j * k + k) by (nonlinear_arith);
            assert(i as int == spec_batch_end(n as int, k, j));
            lemma_batch_count_bounds(n as int, k);
            if i as int == (j + 1) * k {
                lemma_fundamental_div_mod_converse(i as int + k - 1, k, j + 1, k - 1);
            } else {
                lemma_fundamental_div_mod_converse(i as int + k - 1, k, j + 1, i as int - j * k - 1);
            }
            assert(out@.len() == spec_batch_count(i as int, k));
            assert(out@[j]@ == spec_batches(cmds, k)[j]);
        }
    }
    out
}

} // verus!
