//! The orchestrator's computation: turn a decoded image, its placement,
//! the reported canvas bounds and the run configuration into one batch
//! queue per worker, and aggregate the workers' outcomes afterwards. The
//! sockets that carry the plan live outside the library.

use vstd::prelude::*;

verus! {

use crate::batch::{batches, spec_batches, spec_cmds};
use crate::clip::{clip, spec_clip, spec_in_bounds, CanvasBounds};
use crate::error::ClientError;
use crate::raster::{rasterize, spec_raster, ImageGrid};
use crate::shard::{partition, spec_partition};
use crate::types::Pixel;

/// The payloads of worker `i` of `n`: its shard of the clipped sequence,
/// encoded and grouped into batches of `k` commands.
pub open spec fn spec_worker_payloads(clipped: Seq<Pixel>, n: int, k: int, i: int) -> Seq<
    Seq<char>,
> {
    spec_batches(spec_cmds(spec_partition(clipped, n)[i]), k)
}

/// Builds the full streaming plan for an image: rasterize at the offset,
/// clip against the bounds, partition across `workers` shards, and batch
/// each shard at `batch_size` commands per write. The flag reports whether
/// clipping dropped anything (the caller warns once; it is not an error).
/// A worker count or batch size of zero is the one configuration error.
pub fn plan_image(
    grid: &ImageGrid,
    ox: u32,
    oy: u32,
    bounds: &CanvasBounds,
    workers: usize,
    batch_size: usize,
) -> (r: Result<(Vec<Vec<String>>, bool), ClientError>)
    requires
        grid.wf(),
        ox + grid.width <= u32::MAX,
        oy + grid.height <= u32::MAX,
    ensures
        r is Ok <==> workers >= 1 && batch_size >= 1,
        r matches Err(e) ==> e is Config,
        r matches Ok(plan) ==> ({
            let clipped = spec_clip(spec_raster(*grid, ox, oy), *bounds);
            &&& plan.0@.len() == workers as int
            &&& forall|i: int|
                0 <= i < workers as int ==> (#[trigger] plan.0@[i])@.map_values(|s: String| s@)
                    == spec_worker_payloads(clipped, workers as int, batch_size as int, i)
            &&& (plan.1 <==> exists|j: int|
                0 <= j < spec_raster(*grid, ox, oy).len() && !spec_in_bounds(
                    #[trigger] spec_raster(*grid, ox, oy)[j],
                    *bounds,
                ))
        }),
{
    if workers == 0 || batch_size == 0 {
        return Err(ClientError::Config);
    }
    let ghost cl = spec_clip(spec_raster(*grid, ox, oy), *bounds);
    let pixels = rasterize(grid, ox, oy);
    let (clipped, dropped) = clip(&pixels, bounds);
    let shards = partition(&clipped, workers);
    let mut plan: Vec<Vec<String>> = Vec::new();
    let mut i: usize = 0;
    while i < workers
        invariant
            1 <= workers,
            1 <= batch_size,
            shards@.len() == workers as int,
            cl == spec_clip(spec_raster(*grid, ox, oy), *bounds),
            forall|k: int|
                0 <= k < workers as int ==> (#[trigger] shards@[k])@ == spec_partition(
                    cl,
                    workers as int,
                )[k],
            i <= workers,
            plan@.len() == i as int,
            forall|k: int|
                0 <= k < i as int ==> (#[trigger] plan@[k])@.map_values(|s: String| s@)
                    == spec_worker_payloads(cl, workers as int, batch_size as int, k),
        decreases workers - i,
    {
        let payloads = batches(&shards[i], batch_size);
        proof {
            assert(payloads@.map_values(|s: String| s@) =~= spec_worker_payloads(
                cl,
                workers as int,
                batch_size as int,
                i as int,
            ));
        }
        plan.push(payloads);
        i = i + 1;
    }
    Ok((plan, dropped))
}

/// Encoding distributes over concatenation of pixel sequences.
proof fn lemma_cmds_concat(a: Seq<Pixel>, b: Seq<Pixel>)
    ensures
        spec_cmds(a + b) == spec_cmds(a) + spec_cmds(b),
{
    assert(spec_cmds(a + b) =~= spec_cmds(a) + spec_cmds(b));
}

/// Flattening the command streams of a list of shards, shard by shard,
/// gives the command stream of the shards' concatenation.
proof fn lemma_shard_cmds_flatten(ss: Seq<Seq<Pixel>>)
    ensures
        Seq::new(ss.len(), |i: int| spec_cmds(ss[i]).flatten()).flatten() == spec_cmds(
            ss.flatten(),
        ).flatten(),
    decreases ss.len(),
{
    let lhs_seq = Seq::new(ss.len(), |i: int| spec_cmds(ss[i]).flatten());
    if ss.len() == 0 {
        assert(lhs_seq =~= Seq::<Seq<char>>::empty());
        assert(spec_cmds(ss.flatten()) =~= Seq::<Seq<char>>::empty());
    } else {
        let pre = ss.drop_last();
        let last = ss.last();
        lemma_shard_cmds_flatten(pre);
        let pre_seq = Seq::new(pre.len(), |i: int| spec_cmds(pre[i]).flatten());
        assert(lhs_seq =~= pre_seq.push(spec_cmds(last).flatten()));
        pre_seq.lemma_flatten_push(spec_cmds(last).flatten());
        assert(ss =~= pre.push(last));
        pre.lemma_flatten_push(last);
        lemma_cmds_concat(pre.flatten(), last);
        vstd::seq_lib::lemma_flatten_concat(spec_cmds(pre.flatten()), spec_cmds(last));
    }
}

/// Streaming the whole plan is lossless: concatenating every worker's
/// transmitted characters, in worker order, gives exactly the encoding of
/// the whole clipped pixel sequence — partition completeness and batch
/// integrity, composed over the full pipeline.
pub proof fn lemma_plan_complete(clipped: Seq<Pixel>, n: int, k: int)
    requires
        1 <= n,
        1 <= k,
    ensures
        Seq::new(n as nat, |i: int| spec_worker_payloads(clipped, n, k, i).flatten()).flatten()
            == spec_cmds(clipped).flatten(),
{
    let shards = spec_partition(clipped, n);
    let sent = Seq::new(n as nat, |i: int| spec_worker_payloads(clipped, n, k, i).flatten());
    let per_shard = Seq::new(shards.len(), |i: int| spec_cmds(shards[i]).flatten());
    assert forall|i: int| 0 <= i < n implies sent[i] == per_shard[i] by {
        crate::batch::lemma_batches_concat(spec_cmds(shards[i]), k);
    }
    assert(sent =~= per_shard);
    lemma_shard_cmds_flatten(shards);
    crate::shard::lemma_partition_complete(clipped, n);
}

/// The terminal state one worker reported.
#[derive(Debug, Clone, Copy, PartialEq, Eq, Structural)]
pub enum WorkerOutcome {
    /// The worker wrote its whole shard.
    Done,
    /// The worker's connection or one of its writes failed.
    Failed(ClientError),
}

/// What one run reports back: how many workers finished, how many failed,
/// and the first failure's cause, if any.
#[derive(Debug, Clone, Copy, PartialEq, Eq)]
pub struct Summary {
    pub workers_done: usize,
    pub workers_failed: usize,
    pub first_error: Option<ClientError>,
}

/// Aggregates the workers' terminal states: failures are counted, never
/// propagated to siblings, and the first one is kept for reporting.
pub fn summarize(outcomes: &Vec<WorkerOutcome>) -> (s: Summary)
    ensures
        s.workers_done == outcomes@.filter(|o: WorkerOutcome| o is Done).len(),
        s.workers_failed == outcomes@.filter(|o: WorkerOutcome| o is Failed).len(),
        s.workers_done + s.workers_failed == outcomes@.len(),
        s.first_error is None <==> forall|j: int|
            0 <= j < outcomes@.len() ==> !(#[trigger] outcomes@[j] is Failed),
        s.first_error matches Some(e) ==> exists|j: int|
            0 <= j < outcomes@.len() && outcomes@[j] == WorkerOutcome::Failed(e) && (forall|l: int|
                0 <= l < j ==> !(#[trigger] outcomes@[l] is Failed)),
{
    let mut done: usize = 0;
    let mut failed: usize = 0;
    let mut first_error: Option<ClientError> = None;
    let mut i: usize = 0;
    proof {
        reveal(Seq::filter);
        assert(outcomes@.take(0) =~= Seq::<WorkerOutcome>::empty());
    }
    while i < outcomes.len()
        invariant
            i <= outcomes@.len(),
            done == outcomes@.take(i as int).filter(|o: WorkerOutcome| o is Done).len(),
            failed == outcomes@.take(i as int).filter(|o: WorkerOutcome| o is Failed).len(),
            done + failed == i,
            first_error is None <==> forall|j: int|
                0 <= j < i as int ==> !(#[trigger] outcomes@[j] is Failed),
            first_error matches Some(e) ==> exists|j: int|
                0 <= j < i as int && outcomes@[j] == WorkerOutcome::Failed(e) && (forall|l: int|
                    0 <= l < j ==> !(#[trigger] outcomes@[l] is Failed)),
        decreases outcomes@.len() - i,
    {
        proof {
            assert(outcomes@.take(i + 1) =~= outcomes@.take(i as int).push(
                outcomes@[i as int],
            ));
            outcomes@.take(i as int).lemma_filter_push(
                outcomes@[i as int],
                |o: WorkerOutcome| o is Done,
            );
            outcomes@.take(i as int).lemma_filter_push(
                outcomes@[i as int],
                |o: WorkerOutcome| o is Failed,
            );
        }
        match outcomes[i] {
            WorkerOutcome::Done => {
                done = done + 1;
            },
            WorkerOutcome::Failed(e) => {
                failed = failed + 1;
                if first_error.is_none() {
                    first_error = Some(e);
                }
            },
        }
        i = i + 1;
    }
    proof {
        assert(outcomes@.take(outcomes@.len() as int) =~= outcomes@);
    }
    Summary { workers_done: done, workers_failed: failed, first_error }
}

} // verus!
