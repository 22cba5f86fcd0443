use lib::deepseek4::{
    block_tensor_names, expert_read_plan, ReadJob, Stacked,
    check_pass, is_repackable_dense, pool_passes, raw_span, record_into, record_last_token,
    routing_csv, routing_last_token, routing_last_token_reset, RAW_RING,
    attention_mask, expert_dedup, expert_read_plan_cached, record_fits,
    dense_shortfall, env_threads, foreground_readers, indexer_is_exact, prefetch_overlap, prefetch_readers, threads,
};

const WINDOW: i64 = 128;

#[test]
fn the_span_of_a_prefill_starts_at_the_beginning() {
    assert_eq!(raw_span(0, 1, WINDOW), (0, 0));
    assert_eq!(raw_span(0, 5, WINDOW), (0, 4));
    assert_eq!(raw_span(0, 165, WINDOW), (0, 164));
}

#[test]
fn the_span_reaches_back_from_the_first_query_not_the_last() {
    let (lo, hi) = raw_span(300, 64, WINDOW);
    assert_eq!(lo, 300 - WINDOW + 1, "measured from pos0");
    assert_eq!(hi, 363);
    assert_eq!(hi - lo + 1, WINDOW + 63);
}

#[test]
fn a_step_needs_exactly_the_window() {
    let (lo, hi) = raw_span(2000, 1, WINDOW);
    assert_eq!(hi - lo + 1, WINDOW);
    assert_eq!((lo, hi), (1873, 2000));
}

#[test]
fn no_two_positions_in_one_span_share_a_ring_slot() {
    for &(pos0, nt) in &[(0, 1), (0, 897), (1100, 1), (5000, 400), (100_000, 64)] {
        let (lo, hi) = raw_span(pos0, nt, WINDOW);
        assert!(
            hi - lo < RAW_RING,
            "span {} exceeds the ring at pos0 {pos0}, nt {nt}",
            hi - lo + 1
        );
        let mut seen = std::collections::HashSet::new();
        for p in lo..=hi {
            assert!(
                seen.insert(p % RAW_RING),
                "positions collide in the ring at pos0 {pos0}, nt {nt}"
            );
        }
    }
}

#[test]
fn a_span_that_wraps_the_ring_is_still_read_in_position_order() {
    let (lo, hi) = raw_span(1100, 1, WINDOW);
    assert_eq!((lo, hi), (973, 1100));
    let slots: Vec<i64> = (lo..=hi).map(|p| p % RAW_RING).collect();
    assert_eq!(slots[0], 973);
    assert_eq!(*slots.last().expect("non-empty"), 1100 % RAW_RING);
    assert!(slots.windows(2).any(|w| w[1] < w[0]));
}

#[test]
fn the_batch_limit_is_the_ring_minus_the_window() {
    let max_batch = RAW_RING - WINDOW + 1;
    let (lo, hi) = raw_span(0, max_batch, WINDOW);
    assert!(hi - lo < RAW_RING);
    let (lo, hi) = raw_span(10_000, max_batch, WINDOW);
    assert_eq!(hi - lo + 1, RAW_RING, "exactly fills the ring");
    let (lo, hi) = raw_span(10_000, max_batch + 1, WINDOW);
    assert!(hi - lo + 1 > RAW_RING, "one past it must not fit");
}

#[test]
fn without_a_window_the_span_is_the_whole_sequence() {
    assert_eq!(raw_span(5000, 1, 0), (0, 5000));
}

#[test]
fn passes_are_counted_separately_and_pool_correctly() {
    let mut log = vec![Vec::new()];
    record_into(&mut log, 0, 4, &[1, 1, 2]);
    log.push(Vec::new());
    record_into(&mut log, 0, 4, &[2, 3]);

    assert_eq!(log[0][0], vec![0, 2, 1, 0], "pass 0 keeps only its own");
    assert_eq!(log[1][0], vec![0, 0, 1, 1], "pass 1 starts from zero");
    assert_eq!(pool_passes(&log)[0], vec![0, 2, 2, 1]);
}

#[test]
fn tensors_read_by_position_are_never_repackable() {
    for name in [
        "token_embd.weight",
        "blk.0.attn_compressor_ape.weight",
        "blk.12.ffn_gate_tid2eid.weight",
        "blk.3.hc_attn_scale.weight",
        "blk.3.hc_attn_base.weight",
        "blk.3.hc_ffn_scale.weight",
        "blk.3.hc_ffn_base.weight",
        "output_hc_scale.weight",
        "output_hc_base.weight",
        "blk.7.attn_output_a.weight",
        "blk.7.attn_sinks.weight",
    ] {
        assert!(!is_repackable_dense(name), "{name} must never be repacked");
    }
}

#[test]
fn routed_experts_are_never_repackable() {
    for name in [
        "blk.5.ffn_gate_exps.weight",
        "blk.5.ffn_up_exps.weight",
        "blk.5.ffn_down_exps.weight",
    ] {
        assert!(!is_repackable_dense(name), "{name} streams; never repack it");
    }
}

#[test]
fn shared_experts_are_repackable_but_routed_ones_are_not() {
    assert!(is_repackable_dense("blk.5.ffn_gate_shexp.weight"));
    assert!(is_repackable_dense("blk.5.ffn_up_shexp.weight"));
    assert!(is_repackable_dense("blk.5.ffn_down_shexp.weight"));
    assert!(!is_repackable_dense("blk.5.ffn_gate_exps.weight"));
}

#[test]
fn plain_matmul_weights_are_repackable() {
    for name in [
        "blk.0.attn_q_a.weight",
        "blk.41.attn_q_b.weight",
        "blk.9.attn_kv.weight",
        "blk.9.attn_output_b.weight",
        "blk.9.ffn_gate_inp.weight",
        "blk.9.attn_compressor_kv.weight",
        "blk.9.attn_compressor_gate.weight",
        "blk.9.hc_attn_fn.weight",
        "blk.9.hc_ffn_fn.weight",
        "output_hc_fn.weight",
        "output.weight",
    ] {
        assert!(is_repackable_dense(name), "{name} is a plain mul_mat weight");
    }
}

#[test]
fn a_longer_name_that_starts_with_an_allowed_one_is_not_allowed() {
    assert!(is_repackable_dense("blk.2.attn_kv.weight"));
    assert!(!is_repackable_dense("blk.2.attn_kv_a_norm.weight"));
    assert!(!is_repackable_dense("blk.2.attn_q_a_norm.weight"));
    assert!(!is_repackable_dense("blk.2.attn_norm.weight"));
    assert!(!is_repackable_dense("blk.2.ffn_norm.weight"));
    assert!(!is_repackable_dense("blk.2.attn_compressor_norm.weight"));
}

#[test]
fn malformed_and_unknown_names_are_refused() {
    assert!(!is_repackable_dense("blk.3.exp_probs_b.bias"));
    assert!(!is_repackable_dense("attn_kv.weight.extra"));
    assert!(!is_repackable_dense("blk.x.attn_kv.weight"));
    assert!(!is_repackable_dense("blk..attn_kv.weight"));
    assert!(!is_repackable_dense("blk.attn_kv.weight"));
    assert!(!is_repackable_dense("attn_kv"));
    assert!(!is_repackable_dense(""));
}

#[test]
fn later_pass_minus_earlier_is_the_new_token() {
    let prompt = [3i32, 7, 3];
    let generated = [5i32];

    let mut log = vec![Vec::new()];
    record_into(&mut log, 0, 8, &prompt);
    log.push(Vec::new());
    record_into(&mut log, 0, 8, &prompt);
    record_into(&mut log, 0, 8, &generated);

    let delta: Vec<i64> = log[1][0]
        .iter()
        .zip(&log[0][0])
        .map(|(b, a)| i64::from(*b) - i64::from(*a))
        .collect();
    assert!(delta.iter().all(|d| *d >= 0), "a delta must never go negative");
    assert_eq!(delta.iter().sum::<i64>(), generated.len() as i64);
    assert_eq!(delta[5], 1, "the delta is the generated token alone");
}

#[test]
fn pooling_tolerates_ragged_passes() {
    let mut log = vec![Vec::new()];
    record_into(&mut log, 2, 4, &[0]);
    log.push(Vec::new());
    record_into(&mut log, 0, 4, &[1]);

    let pooled = pool_passes(&log);
    assert_eq!(pooled.len(), 3);
    assert_eq!(pooled[0], vec![0, 1, 0, 0]);
    assert_eq!(pooled[2], vec![1, 0, 0, 0]);
}

#[test]
fn an_id_outside_the_row_is_not_counted() {
    let mut log = vec![Vec::new()];
    record_into(&mut log, 1, 3, &[-1, 3, 0, 2, 7]);
    assert_eq!(log[0].len(), 2);
    assert_eq!(log[0][0], vec![0, 0, 0]);
    assert_eq!(log[0][1], vec![1, 0, 1]);
}

#[test]
fn only_the_last_token_of_a_batch_is_kept() {
    let mut rows: Vec<Vec<i32>> = Vec::new();
    record_last_token(&mut rows, 2, 2, &[1, 2, 3, 4, 5, 6]);
    assert_eq!(routing_last_token(&rows), vec![vec![], vec![], vec![5, 6]]);
    record_last_token(&mut rows, 0, 3, &[9, 8, 7]);
    assert_eq!(routing_last_token(&rows), vec![vec![9, 8, 7], vec![], vec![5, 6]]);
    record_last_token(&mut rows, 1, 4, &[1, 2]);
    assert_eq!(rows[1], Vec::<i32>::new(), "too few selections leaves the row alone");
    routing_last_token_reset(&mut rows);
    assert!(routing_last_token(&rows).is_empty());
}

#[test]
fn a_pass_that_would_overrun_the_ring_is_refused() {
    assert!(check_pass(0, (RAW_RING - WINDOW + 1) as usize, WINDOW).is_ok());
    assert!(check_pass(10_000, (RAW_RING - WINDOW + 2) as usize, WINDOW).is_err());
}

#[test]
fn a_block_names_what_it_needs_and_what_the_container_has() {
    let container: Vec<String> = vec![
        "blk.3.attn_compressor_kv.weight".to_string(),
        "blk.3.exp_probs_b.bias".to_string(),
        "blk.4.ffn_gate_tid2eid.weight".to_string(),
    ];
    let names = block_tensor_names(3, &container);
    assert_eq!(names.len(), 22);
    assert_eq!(names[0], "blk.3.hc_attn_fn.weight");
    assert_eq!(names[19], "blk.3.ffn_down_shexp.weight");
    assert_eq!(names[20], "blk.3.exp_probs_b.bias");
    assert_eq!(names[21], "blk.3.attn_compressor_kv.weight");
    assert!(!names.iter().any(|n| n.contains("tid2eid")), "another block's tensor is not this one's");
}

#[test]
fn expert_slices_are_packed_in_order_and_dealt_round_robin() {
    let ts = vec![Stacked { size: 2560, n_expert: 256 }, Stacked { size: 512, n_expert: 256 }];
    let (buffers, jobs) = expert_read_plan(&ts, &[7, 0, 255], 4);
    assert_eq!(buffers, vec![30, 6]);
    assert_eq!(jobs[0][0], ReadJob { len: 10, offset: 70, dst: 0, reader: 0 });
    assert_eq!(jobs[0][1], ReadJob { len: 10, offset: 0, dst: 10, reader: 1 });
    assert_eq!(jobs[0][2], ReadJob { len: 10, offset: 2550, dst: 20, reader: 2 });
    assert_eq!(jobs[1][0], ReadJob { len: 2, offset: 14, dst: 0, reader: 3 });
    assert_eq!(jobs[1][1], ReadJob { len: 2, offset: 0, dst: 2, reader: 0 });
    assert_eq!(jobs[1][2], ReadJob { len: 2, offset: 510, dst: 4, reader: 1 });
}

#[test]
fn routing_rows_are_dense_and_ordered() {
    let log = vec![vec![vec![3, 0], vec![1]], vec![vec![7]]];
    assert_eq!(
        routing_csv(&log),
        "pass,layer,expert,count\n0,0,0,3\n0,0,1,0\n0,1,0,1\n1,0,0,7\n"
    );
    assert_eq!(routing_csv(&Vec::new()), "pass,layer,expert,count\n");
}

#[test]
fn prefetch_readers_default_and_override() {
    assert_eq!(prefetch_readers(None), 2);
    assert_eq!(prefetch_readers(Some("4")), 4);
    assert_eq!(prefetch_readers(Some("7")), 7);
    assert_eq!(prefetch_readers(Some("8")), 2, "the whole pool is refused");
    assert_eq!(prefetch_readers(Some("0")), 2);
    assert_eq!(prefetch_readers(Some("two")), 2);
}

#[test]
fn the_foreground_gives_up_the_prefetch_share_only_while_prefetching() {
    assert_eq!(foreground_readers(false, Some("3")), 8);
    assert_eq!(foreground_readers(true, None), 6);
    assert_eq!(foreground_readers(true, Some("3")), 5);
}

#[test]
fn overlap_is_on_unless_switched_off() {
    assert!(prefetch_overlap(None));
    assert!(prefetch_overlap(Some("1")));
    assert!(prefetch_overlap(Some("00")), "only exactly 0 switches it off");
    assert!(!prefetch_overlap(Some("0")));
}

#[test]
fn thread_counts_come_from_their_setting_or_the_cores() {
    assert_eq!(env_threads(Some("6")), Some(6));
    assert_eq!(env_threads(Some("0")), None);
    assert_eq!(env_threads(Some("-2")), None);
    assert_eq!(env_threads(None), None);
    assert_eq!(threads(1, Some("12"), None, 16), 4, "generation caps the cores at four");
    assert_eq!(threads(1, None, Some("7"), 16), 7);
    assert_eq!(threads(1, None, None, 2), 2);
    assert_eq!(threads(32, Some("12"), Some("7"), 16), 12);
    assert_eq!(threads(32, None, Some("7"), 16), 16, "a batch takes every core");
}

#[test]
fn a_block_with_a_tensor_neither_repacked_nor_resident_is_short() {
    let container: Vec<String> = Vec::new();
    let needed = lib::deepseek4::block_tensor_names(1, &container);
    assert!(!dense_shortfall(43, &container, &needed));
    assert!(dense_shortfall(43, &container, &needed[1..].to_vec()));
    assert!(!dense_shortfall(1, &container, &Vec::new()), "one block has nothing to probe");
}

#[test]
fn a_pass_too_long_for_the_ring_says_it_is_the_batch() {
    let e = check_pass(10_000, (RAW_RING - WINDOW + 2) as usize, WINDOW).unwrap_err();
    let m = e.message();
    assert!(m.starts_with(&format!("{} tokens in one pass; this path takes {} at a time.", e.tokens, e.limit)));
    assert!(m.ends_with(&format!("Prefill in blocks of {} or fewer (-b).", e.limit)));
}

#[test]
fn the_indexer_is_exact_until_the_cache_outgrows_it() {
    assert!(indexer_is_exact(1024, 4, 256), "256 blocks, and the indexer keeps 256");
    assert!(indexer_is_exact(1027, 4, 256));
    assert!(!indexer_is_exact(1028, 4, 256));
    assert!(indexer_is_exact(0, 4, 0));
}

#[test]
fn held_slices_are_copied_and_the_rest_read() {
    let ts = vec![Stacked { size: 2560, n_expert: 256 }, Stacked { size: 512, n_expert: 256 }];
    let hit = vec![vec![true, false, true], vec![false, false, true]];
    let (buffers, jobs, hit_bytes, misses) = expert_read_plan_cached(&ts, &[7, 0, 255], 4, &hit);
    let (b2, j2) = expert_read_plan(&ts, &[7, 0, 255], 4);
    assert_eq!((buffers, jobs), (b2, j2), "the layout does not depend on the cache");
    assert_eq!(hit_bytes, 10 + 10 + 2);
    assert_eq!(misses, vec![(0, 1), (1, 0), (1, 1)]);
}

#[test]
fn a_query_sees_its_past_within_the_window_and_complete_blocks() {
    // Two queries at positions 10 and 11 over raw keys 8..=11 and three blocks of 4.
    let m = attention_mask(10, 2, 8, 4, 3, 3, 4, true);
    assert_eq!(m[0], vec![false, false, false, true, false, false, true]);
    assert_eq!(m[1], vec![true, false, false, false, false, false, false]);
    let no_window = attention_mask(10, 1, 8, 4, 0, 0, 4, false);
    assert_eq!(no_window[0], vec![false, false, false, true]);
}

#[test]
fn a_block_reads_each_chosen_expert_once() {
    let ids = vec![5, 2, 5, 9, 2, 5];
    let (unique, compact, selections) = expert_dedup(&ids);
    assert_eq!(unique, vec![2, 5, 9]);
    assert_eq!(compact, vec![1, 0, 1, 2, 0, 1]);
    assert_eq!(selections, vec![2, 3, 1]);
    assert_eq!(expert_dedup(&vec![]), (vec![], vec![], vec![]));
}

#[test]
fn a_count_that_would_overflow_is_caught_before_recording() {
    assert!(!record_fits(&Vec::new(), 0, 4, &[1]), "no pass to count into");
    let full = vec![vec![vec![0, u32::MAX, 0]]];
    assert!(record_fits(&full, 0, 3, &[0, 2, 7]));
    assert!(!record_fits(&full, 0, 3, &[1]));
    assert!(record_fits(&full, 1, 3, &[1, 1]), "a new layer starts from zero");
}
