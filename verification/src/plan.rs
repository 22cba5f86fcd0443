//! `--auto`: pick the knobs a person would otherwise have to know, from the
//! container and the machine.
//!
//! The machine is asked elsewhere (free memory, cores, devices); what is
//! decided from the answers is here.
use vstd::prelude::*;

verus! {

/// Bytes in a GiB.
pub const GIB: u64 = 1073741824;

/// VRAM left for activations, KV and arenas once the weights are placed.
pub const AUTO_VRAM_MARGIN: u64 = 1073741824;

/// Where the expert-cache curve flattens: 6 GiB.
pub const AUTO_CACHE_CEILING: u64 = 6442450944;

/// Tokens per prefill block when nobody has said otherwise.
pub const DEFAULT_PREFILL_BLOCK: usize = 2048;

/// One tensor of the container: its size, and whether it is a routed expert
/// (which streams from disk) rather than part of the always-read set.
#[derive(Clone, Copy, Debug)]
pub struct TensorSize {
    pub size: u64,
    pub routed_expert: bool,
}

/// What the container and the machine said.
#[derive(Clone, Copy, Debug)]
pub struct Facts {
    /// Free memory when the expert cache is sized, `0` if unknown.
    pub cache_avail: u64,
    /// Free memory when the rest is planned, `0` if unknown.
    pub avail: u64,
    pub cores: usize,
    pub n_layer: u32,
    pub n_expert: u32,
    pub n_expert_used: u32,
    pub is_moe: bool,
    /// The discrete GPU with the most free memory: its index and free bytes.
    pub gpu: Option<(usize, u64)>,
}

/// Where the weights go, and the numbers that say why.
#[derive(Clone, Copy, PartialEq, Eq, Debug, Structural)]
pub enum Placement {
    /// No discrete GPU: everything runs on the CPU.
    NoGpu,
    /// The whole model fits in the usable VRAM.
    Whole { usable: u64 },
    /// The model streams experts, and partial offload was measured slower.
    Streams { usable: u64 },
    /// Not one block fits.
    NoBlock { per_block: u64, usable: u64 },
    /// `blocks` of the layers fit.
    Partial { blocks: usize, per_block: u64, usable: u64 },
}

/// The plan.
#[derive(Clone, Copy, PartialEq, Eq, Debug, Structural)]
pub struct AutoPlan {
    pub device: Option<usize>,
    pub gpu_layers: Option<usize>,
    pub cache_bytes: Option<u64>,
    /// Generation threads: not the same number as prefill's.
    pub threads: Option<usize>,
    /// Prefill threads.
    pub batch_threads: Option<usize>,
    /// Tokens per prefill block.
    pub prefill_block: Option<usize>,
    /// Bytes a generated token reads from disk.
    pub per_token: u64,
    pub placement: Placement,
    pub dense: u64,
    pub experts: u64,
}

/// The bytes of the tensors in `ts` that are routed experts (`experts`) or not.
pub open spec fn sum_sizes(ts: Seq<TensorSize>, experts: bool) -> int
    decreases ts.len(),
{
    if ts.len() == 0 {
        0
    } else {
        sum_sizes(ts.drop_last(), experts) + if ts.last().routed_expert == experts {
            ts.last().size as int
        } else {
            0
        }
    }
}

pub open spec fn clamp(x: int, lo: int, hi: int) -> int {
    if x < lo {
        lo
    } else if x > hi {
        hi
    } else {
        x
    }
}

pub open spec fn sat_sub(a: int, b: int) -> int {
    if a >= b {
        a - b
    } else {
        0
    }
}

/// The expert cache: half of what is free, clamped between 1 GiB and the
/// plateau, and only when experts stream at all.
pub open spec fn cache_spec(experts: int, cache_avail: int) -> Option<u64> {
    if experts > 0 {
        Some(clamp(cache_avail / 2, GIB as int, AUTO_CACHE_CEILING as int) as u64)
    } else {
        None
    }
}

/// Tokens per prefill block, scaled with free memory: the arena grows with
/// it, and an exhausted arena aborts the process.
pub open spec fn prefill_spec(avail: int) -> usize {
    if avail >= 24 * GIB {
        4096
    } else if avail >= 8 * GIB {
        2048
    } else {
        512
    }
}

/// What a token reads from disk: the always-read bytes that do not fit in
/// free memory, and its share of the experts, the used/total fraction of
/// the pool.
pub open spec fn per_token_spec(dense: int, experts: int, avail: int, used: int, total: int) -> int {
    let slice = if total > 0 && used > 0 && used <= total {
        (experts / total) * used
    } else {
        0
    };
    sat_sub(dense, avail) + slice
}

/// Where the weights go.
pub open spec fn placement_spec(f: Facts, dense: int, total: int) -> Placement {
    match f.gpu {
        None => Placement::NoGpu,
        Some((_, free)) => {
            let usable = sat_sub(free as int, AUTO_VRAM_MARGIN as int);
            if total <= usable {
                Placement::Whole { usable: usable as u64 }
            } else if f.is_moe {
                Placement::Streams { usable: usable as u64 }
            } else {
                let n_layer = if f.n_layer == 0 { 1 } else { f.n_layer as int };
                let per_block = if dense / n_layer == 0 { 1 } else { dense / n_layer };
                let fit = usable / per_block;
                let blocks = if fit < n_layer { fit } else { n_layer };
                if blocks == 0 {
                    Placement::NoBlock { per_block: per_block as u64, usable: usable as u64 }
                } else {
                    Placement::Partial {
                        blocks: blocks as usize,
                        per_block: per_block as u64,
                        usable: usable as u64,
                    }
                }
            }
        },
    }
}

/// The device and the number of layers on it, from the placement.
pub open spec fn offload_spec(f: Facts, p: Placement) -> (Option<usize>, Option<usize>) {
    match (f.gpu, p) {
        (Some((index, _)), Placement::Whole { .. }) => (Some(index), Some(usize::MAX)),
        (Some((index, _)), Placement::Partial { blocks, .. }) => (Some(index), Some(blocks)),
        (Some((index, _)), _) => (Some(index), Some(0)),
        (None, _) => (None, None),
    }
}

/// The whole plan for the tensors `ts` on a machine that said `f`.
pub open spec fn plan_spec(ts: Seq<TensorSize>, f: Facts) -> AutoPlan {
    let dense = sum_sizes(ts, false);
    let experts = sum_sizes(ts, true);
    let placement = placement_spec(f, dense, dense + experts);
    let (device, gpu_layers) = offload_spec(f, placement);
    AutoPlan {
        device,
        gpu_layers,
        cache_bytes: cache_spec(experts, f.cache_avail as int),
        threads: Some(clamp(f.cores as int, 1, 4) as usize),
        batch_threads: Some(f.cores),
        prefill_block: Some(prefill_spec(f.avail as int)),
        per_token: per_token_spec(dense, experts, f.avail as int, f.n_expert_used as int, f.n_expert as int) as u64,
        placement,
        dense: dense as u64,
        experts: experts as u64,
    }
}

proof fn lemma_sum_prefix(ts: Seq<TensorSize>, k: int, experts: bool)
    requires
        0 <= k <= ts.len(),
    ensures
        0 <= sum_sizes(ts.take(k), experts) <= sum_sizes(ts, experts),
    decreases ts.len() - k,
{
    if k < ts.len() {
        lemma_sum_prefix(ts, k + 1, experts);
        assert(ts.take(k + 1).drop_last() == ts.take(k));
    } else {
        assert(ts.take(k) == ts);
    }
    lemma_sum_nonneg(ts.take(k), experts);
}

proof fn lemma_sum_nonneg(ts: Seq<TensorSize>, experts: bool)
    ensures
        sum_sizes(ts, experts) >= 0,
    decreases ts.len(),
{
    if ts.len() > 0 {
        lemma_sum_nonneg(ts.drop_last(), experts);
    }
}

/// What `--auto` promises of any plan: the expert cache exists exactly when
/// experts stream, never leaves the 1 GiB to 6 GiB band and never asks for
/// more than half of what is free (when that is at least 1 GiB); generation
/// takes one to four threads and prefill every core; a model that streams
/// experts and does not fit on the card gets no layers on it; and a partial
/// offload never places more blocks than the model has.
pub proof fn lemma_plan_keeps_its_promises(ts: Seq<TensorSize>, f: Facts)
    ensures
        plan_spec(ts, f).cache_bytes is Some <==> sum_sizes(ts, true) > 0,
        plan_spec(ts, f).cache_bytes matches Some(c) ==> GIB <= c <= AUTO_CACHE_CEILING,
        plan_spec(ts, f).cache_bytes matches Some(c) ==> (f.cache_avail >= 2 * GIB ==> c <= f.cache_avail / 2),
        plan_spec(ts, f).threads matches Some(t) && 1 <= t <= 4,
        f.cores >= 1 ==> plan_spec(ts, f).threads->0 <= f.cores,
        plan_spec(ts, f).batch_threads == Some(f.cores),
        plan_spec(ts, f).placement is Streams ==> plan_spec(ts, f).gpu_layers == Some(0usize),
        plan_spec(ts, f).placement matches Placement::Partial { blocks, .. } ==> 0 < blocks <= (if f.n_layer == 0 { 1 } else { f.n_layer as int }),
        f.gpu is None <==> plan_spec(ts, f).device is None,
{
    let experts = sum_sizes(ts, true);
    if experts > 0 {
        let c = clamp(f.cache_avail as int / 2, GIB as int, AUTO_CACHE_CEILING as int);
        assert(GIB <= c <= AUTO_CACHE_CEILING);
        assert(c as u64 == c);
    }
    let t = clamp(f.cores as int, 1, 4);
    assert(t as usize == t);
    if let Some((_, free)) = f.gpu {
        let dense = sum_sizes(ts, false);
        let usable = sat_sub(free as int, AUTO_VRAM_MARGIN as int);
        let n_layer = if f.n_layer == 0 { 1 } else { f.n_layer as int };
        lemma_sum_nonneg(ts, false);
        assert(dense / n_layer >= 0) by (nonlinear_arith)
            requires
                dense >= 0,
                n_layer > 0,
        ;
        let per_block = if dense / n_layer == 0 { 1 } else { dense / n_layer };
        if per_block > 0 {
            let fit = usable / per_block;
            assert(fit >= 0) by (nonlinear_arith)
                requires
                    usable >= 0,
                    per_block > 0,
                    fit == usable / per_block,
            ;
            let blocks = if fit < n_layer { fit } else { n_layer };
            assert(blocks as usize == blocks);
        }
    }
}

/// Plan a run of the tensors `ts` on a machine that said `f`.
pub fn auto_plan(ts: &[TensorSize], f: &Facts) -> (r: AutoPlan)
    requires
        sum_sizes(ts@, false) + sum_sizes(ts@, true) <= u64::MAX,
    ensures
        r == plan_spec(ts@, *f),
{
    let mut dense: u64 = 0;
    let mut experts: u64 = 0;
    let mut i: usize = 0;
    proof {
        lemma_sum_nonneg(ts@, false);
        lemma_sum_nonneg(ts@, true);
    }
    while i < ts.len()
        invariant
            i <= ts.len(),
            sum_sizes(ts@, false) + sum_sizes(ts@, true) <= u64::MAX,
            dense == sum_sizes(ts@.take(i as int), false),
            experts == sum_sizes(ts@.take(i as int), true),
        decreases ts.len() - i,
    {
        proof {
            assert(ts@.take(i + 1).drop_last() == ts@.take(i as int));
            lemma_sum_prefix(ts@, i + 1, false);
            lemma_sum_prefix(ts@, i + 1, true);
        }
        let t = ts[i];
        if t.routed_expert {
            experts = experts + t.size;
        } else {
            dense = dense + t.size;
        }
        i = i + 1;
    }
    assert(ts@.take(ts.len() as int) == ts@);
    let total = dense + experts;
    let cache_bytes = if experts > 0 {
        let half = f.cache_avail / 2;
        let want = if half < GIB {
            GIB
        } else if half > AUTO_CACHE_CEILING {
            AUTO_CACHE_CEILING
        } else {
            half
        };
        Some(want)
    } else {
        None
    };
    let cores = f.cores;
    let gen_threads = if cores < 1 {
        1
    } else if cores > 4 {
        4
    } else {
        cores
    };
    let avail = f.avail;
    let prefill_block: usize = if avail >= 24 * GIB {
        4096
    } else if avail >= 8 * GIB {
        2048
    } else {
        512
    };
    let used = f.n_expert_used as u64;
    let n_expert = f.n_expert as u64;
    let slice = if n_expert > 0 && used > 0 && used <= n_expert {
        proof {
            assert((experts / n_expert) * used <= (experts / n_expert) * n_expert) by (nonlinear_arith)
                requires
                    used <= n_expert,
            ;
            assert((experts / n_expert) * n_expert <= experts) by (nonlinear_arith)
                requires
                    n_expert > 0,
            ;
        }
        experts / n_expert * used
    } else {
        0
    };
    let per_token = dense.saturating_sub(avail) + slice;
    let (device, gpu_layers, placement) = match f.gpu {
        None => (None, None, Placement::NoGpu),
        Some((index, free)) => {
            let usable = free.saturating_sub(AUTO_VRAM_MARGIN);
            if total <= usable {
                (Some(index), Some(usize::MAX), Placement::Whole { usable })
            } else if f.is_moe {
                (Some(index), Some(0), Placement::Streams { usable })
            } else {
                let n_layer: u64 = if f.n_layer == 0 { 1 } else { f.n_layer as u64 };
                let per_block = if dense / n_layer == 0 { 1 } else { dense / n_layer };
                let fit = usable / per_block;
                let blocks = if fit < n_layer { fit } else { n_layer };
                if blocks == 0 {
                    (Some(index), Some(0), Placement::NoBlock { per_block, usable })
                } else {
                    let blocks = blocks as usize;
                    (Some(index), Some(blocks), Placement::Partial { blocks, per_block, usable })
                }
            }
        },
    };
    AutoPlan {
        device,
        gpu_layers,
        cache_bytes,
        threads: Some(gen_threads),
        batch_threads: Some(cores),
        prefill_block: Some(prefill_block),
        per_token,
        placement,
        dense,
        experts,
    }
}

/// The discrete GPU with the most free memory among `devices`, each given as
/// whether it is a discrete GPU and its free bytes: the last of those with
/// the most, as `Iterator::max_by_key` picks, with its index in `devices`.
pub fn pick_gpu(devices: &[(bool, u64)]) -> (r: Option<(usize, u64)>)
    ensures
        match r {
            None => forall|i: int| 0 <= i < devices@.len() ==> !(#[trigger] devices@[i]).0,
            Some((index, free)) => {
                &&& index < devices@.len()
                &&& devices@[index as int] == (true, free)
                &&& forall|i: int|
                    0 <= i < devices@.len() && (#[trigger] devices@[i]).0 ==> devices@[i].1 <= free
                &&& forall|i: int|
                    index < i < devices@.len() && (#[trigger] devices@[i]).0 ==> devices@[i].1 < free
            },
        },
{
    let mut best: Option<(usize, u64)> = None;
    let mut i: usize = 0;
    while i < devices.len()
        invariant
            i <= devices@.len(),
            match best {
                None => forall|k: int| 0 <= k < i ==> !(#[trigger] devices@[k]).0,
                Some((index, free)) => {
                    &&& index < i
                    &&& devices@[index as int] == (true, free)
                    &&& forall|k: int| 0 <= k < i && (#[trigger] devices@[k]).0 ==> devices@[k].1 <= free
                    &&& forall|k: int|
                        index < k < i && (#[trigger] devices@[k]).0 ==> devices@[k].1 < free
                },
            },
        decreases devices.len() - i,
    {
        let (gpu, free) = devices[i];
        if gpu {
            match best {
                None => {
                    best = Some((i, free));
                },
                Some((_, b)) => {
                    if free >= b {
                        best = Some((i, free));
                    }
                },
            }
        }
        i = i + 1;
    }
    best
}

/// Whether `auto_plan` can add up the container's sizes.
pub fn sizes_fit(ts: &[TensorSize]) -> (r: bool)
    ensures
        r == (sum_sizes(ts@, false) + sum_sizes(ts@, true) <= u64::MAX),
{
    let mut dense: u128 = 0;
    let mut experts: u128 = 0;
    let mut i: usize = 0;
    while i < ts.len()
        invariant
            i <= ts@.len(),
            dense == sum_sizes(ts@.take(i as int), false),
            experts == sum_sizes(ts@.take(i as int), true),
            dense + experts <= u64::MAX,
        decreases ts.len() - i,
    {
        assert(ts@.take(i + 1).drop_last() =~= ts@.take(i as int));
        proof {
            lemma_sum_nonneg(ts@.take(i as int), false);
            lemma_sum_nonneg(ts@.take(i as int), true);
        }
        if ts[i].routed_expert {
            experts = experts + ts[i].size as u128;
        } else {
            dense = dense + ts[i].size as u128;
        }
        i = i + 1;
        if dense + experts > 0xffff_ffff_ffff_ffff {
            proof {
                lemma_sum_prefix(ts@, i as int, false);
                lemma_sum_prefix(ts@, i as int, true);
            }
            return false;
        }
    }
    assert(ts@.take(ts@.len() as int) =~= ts@);
    true
}

} // verus!
