use lib::plan::{auto_plan, pick_gpu, sizes_fit, Facts, Placement, TensorSize, GIB};

fn facts() -> Facts {
    Facts {
        cache_avail: 10 * GIB,
        avail: 10 * GIB,
        cores: 16,
        n_layer: 48,
        n_expert: 128,
        n_expert_used: 8,
        is_moe: true,
        gpu: None,
    }
}

fn tensors() -> Vec<TensorSize> {
    vec![
        TensorSize { size: GIB, routed_expert: false },
        TensorSize { size: 16 * GIB, routed_expert: true },
        TensorSize { size: GIB / 2, routed_expert: false },
    ]
}

#[test]
fn a_streaming_model_on_a_cpu() {
    let p = auto_plan(&tensors(), &facts());
    assert_eq!(p.dense, GIB + GIB / 2);
    assert_eq!(p.experts, 16 * GIB);
    assert_eq!(p.cache_bytes, Some(5 * GIB), "half of what is free");
    assert_eq!(p.threads, Some(4), "generation stops scaling past four");
    assert_eq!(p.batch_threads, Some(16));
    assert_eq!(p.prefill_block, Some(2048));
    assert_eq!(p.per_token, GIB, "8 of 128 experts of 16 GiB, and the trunk is resident");
    assert_eq!((p.device, p.gpu_layers), (None, None));
    assert_eq!(p.placement, Placement::NoGpu);
}

#[test]
fn the_cache_is_clamped_between_one_gib_and_the_plateau() {
    let small = Facts { cache_avail: GIB, ..facts() };
    assert_eq!(auto_plan(&tensors(), &small).cache_bytes, Some(GIB));
    let big = Facts { cache_avail: 64 * GIB, ..facts() };
    assert_eq!(auto_plan(&tensors(), &big).cache_bytes, Some(6 * GIB));
    let dense_only = vec![TensorSize { size: GIB, routed_expert: false }];
    assert_eq!(auto_plan(&dense_only, &facts()).cache_bytes, None);
}

#[test]
fn the_prefill_block_follows_memory() {
    assert_eq!(auto_plan(&tensors(), &Facts { avail: 24 * GIB, ..facts() }).prefill_block, Some(4096));
    assert_eq!(auto_plan(&tensors(), &Facts { avail: 8 * GIB, ..facts() }).prefill_block, Some(2048));
    assert_eq!(auto_plan(&tensors(), &Facts { avail: 8 * GIB - 1, ..facts() }).prefill_block, Some(512));
    assert_eq!(auto_plan(&tensors(), &Facts { cores: 2, ..facts() }).threads, Some(2));
    assert_eq!(auto_plan(&tensors(), &Facts { cores: 0, ..facts() }).threads, Some(1));
}

#[test]
fn a_trunk_that_does_not_fit_is_read_per_token() {
    let f = Facts { avail: GIB, n_expert: 0, n_expert_used: 0, is_moe: false, ..facts() };
    let p = auto_plan(&tensors(), &f);
    assert_eq!(p.per_token, GIB / 2);
}

#[test]
fn the_card_takes_what_fits() {
    let ts = vec![TensorSize { size: 48 * GIB, routed_expert: false }];
    let dense = Facts { is_moe: false, n_expert: 0, n_expert_used: 0, gpu: Some((1, 13 * GIB)), ..facts() };
    let p = auto_plan(&ts, &dense);
    assert_eq!(p.device, Some(1));
    assert_eq!(p.gpu_layers, Some(12));
    assert_eq!(p.placement, Placement::Partial { blocks: 12, per_block: GIB, usable: 12 * GIB });

    let whole = Facts { gpu: Some((0, 64 * GIB)), ..dense };
    assert_eq!(auto_plan(&ts, &whole).gpu_layers, Some(usize::MAX));

    let tiny = Facts { gpu: Some((0, GIB + GIB / 2)), ..dense };
    let p = auto_plan(&ts, &tiny);
    assert_eq!(p.gpu_layers, Some(0));
    assert!(matches!(p.placement, Placement::NoBlock { .. }));

    let streams = Facts { gpu: Some((2, 13 * GIB)), ..facts() };
    let p = auto_plan(&tensors(), &streams);
    assert_eq!((p.device, p.gpu_layers), (Some(2), Some(0)));
    assert_eq!(p.placement, Placement::Streams { usable: 12 * GIB });
}

#[test]
fn the_roomiest_discrete_gpu_is_chosen() {
    assert_eq!(pick_gpu(&[]), None);
    assert_eq!(pick_gpu(&[(false, 100)]), None);
    assert_eq!(pick_gpu(&[(true, 5), (false, 100), (true, 9), (true, 7)]), Some((2, 9)));
    assert_eq!(pick_gpu(&[(true, 9), (true, 9)]), Some((1, 9)), "the last of equals, as max_by_key picks");
}

#[test]
fn sizes_that_cannot_be_added_are_caught() {
    assert!(sizes_fit(&tensors()));
    let huge = vec![TensorSize { size: u64::MAX, routed_expert: false }, TensorSize { size: 1, routed_expert: true }];
    assert!(!sizes_fit(&huge));
}
