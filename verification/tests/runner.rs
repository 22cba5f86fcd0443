use lib::plan::{AutoPlan, Placement, GIB};
use lib::run::ThinkTracker;
use lib::runner::{
    admit_architecture, apply_auto, auto_prefill_block, cache_budget, context_refusal,
    deepseek4_expert_budget, deepseek4_reserve, device_index, dry_breakers_or_default, fit_room,
    generation_step, grammar_source, no_tokens_refusal, single_token_breakers,
    takes_deepseek4_path, wanted_device, DeviceWant, GenAction, GenConfig, GenEvent, GenState,
};

#[test]
fn an_unverified_architecture_is_refused_unless_forced() {
    assert!(admit_architecture("qwen3", false).is_ok());
    assert!(admit_architecture("falcon", true).is_ok());
    let m = admit_architecture("falcon", false).unwrap_err();
    assert!(m.starts_with("\"falcon\" is not an architecture this build has been verified against.\n"));
    assert!(m.contains("           verified: baichuan, gemma, deepseek4, gemma2,"));
    assert!(m.ends_with("Pass --force to run it anyway."));
    assert!(takes_deepseek4_path("deepseek4"));
    assert!(!takes_deepseek4_path("qwen3"));
}

#[test]
fn a_grammar_and_a_schema_are_alternatives() {
    assert_eq!(
        grammar_source(Some("root ::= \"a\""), Some("{}")).unwrap_err(),
        "--grammar and --json-schema are alternatives; pass one"
    );
    assert_eq!(grammar_source(Some("g"), None).unwrap(), Some((false, "g".to_string())));
    assert_eq!(grammar_source(None, Some("{}")).unwrap(), Some((true, "{}".to_string())));
    assert_eq!(grammar_source(None, None).unwrap(), None);
    assert_eq!(no_tokens_refusal(0, false), Some("prompt encoded to zero tokens"));
    assert_eq!(no_tokens_refusal(0, true), Some("empty prompt"));
    assert_eq!(no_tokens_refusal(3, true), None);
}

#[test]
fn only_single_token_breakers_are_kept() {
    assert_eq!(dry_breakers_or_default(&vec![]), vec!["\n", ":", "\"", "*"]);
    assert_eq!(dry_breakers_or_default(&vec!["x".to_string()]), vec!["x"]);
    let encoded = vec![vec![1, 13], vec![1, 25, 26], vec![30], vec![1], vec![]];
    assert_eq!(single_token_breakers(&encoded, Some(1)), vec![13, 30]);
    assert_eq!(single_token_breakers(&encoded, None), vec![30, 1]);
}

#[test]
fn a_run_past_what_this_build_can_do_is_refused() {
    let m = context_refusal(100, 28, 100, None, true).unwrap();
    assert!(m.starts_with("prompt is 100 tokens and -n is 28, past the 100 this build can run"));
    assert_eq!(context_refusal(50, 50, 100, Some(64), true), None, "-c is the shift's business");
    assert_eq!(
        context_refusal(50, 50, 100, Some(64), false).unwrap(),
        "prompt is 50 tokens and -n is 50, which exceeds the -c limit of 64. Drop --no-context-shift to let it make room instead."
    );
    assert_eq!(context_refusal(10, 10, 100, Some(64), false), None);
}

#[test]
fn the_expert_cache_fills_what_is_free_beyond_the_headroom() {
    let (b, h) = cache_budget(None, true, Some(20 * GIB), 1024, 1 << 20, 1000, 4096, 2048);
    assert_eq!(h, GIB + 1000 * (1 << 20) + 4096 * 2048 * 96);
    assert_eq!(b, 20 * GIB - h);
    assert_eq!(cache_budget(Some(3), true, Some(20 * GIB), 1024, 1, 1, 1, 1).0, 3, "an explicit --cache wins");
    assert_eq!(cache_budget(None, false, Some(20 * GIB), 1024, 1, 1, 1, 1).0, GIB);
    assert_eq!(cache_budget(None, true, None, 1024, 1, 1, 1, 1).0, GIB);
    assert_eq!(cache_budget(None, true, Some(GIB), 1024, 1, 1, 1, 1).0, GIB, "never below 1 GiB");
    assert_eq!(fit_room(10 * GIB, GIB, GIB, GIB), 7);
    assert_eq!(fit_room(GIB, GIB, GIB, 1), 0);
}

fn plan(device: Option<usize>, layers: Option<usize>, cache: Option<u64>) -> AutoPlan {
    AutoPlan {
        device,
        gpu_layers: layers,
        cache_bytes: cache,
        threads: Some(4),
        batch_threads: Some(16),
        prefill_block: Some(4096),
        per_token: 0,
        placement: Placement::NoGpu,
        dense: 0,
        experts: 0,
    }
}

#[test]
fn auto_fills_gaps_and_does_not_overrule() {
    let p = plan(Some(1), Some(20), Some(6 * GIB));
    assert_eq!(apply_auto(None, None, None, &p), (Some(1), Some(20), Some(6 * GIB)));
    assert_eq!(apply_auto(Some(0), Some(5), Some(GIB), &p), (Some(0), Some(5), Some(GIB)));
    assert_eq!(apply_auto(None, None, None, &plan(Some(1), Some(0), None)), (None, Some(0), None));
    assert_eq!(auto_prefill_block(2048, &p), 4096);
    assert_eq!(auto_prefill_block(512, &p), 512, "a typed -b stays");
}

#[test]
fn the_deepseek4_cache_waits_for_the_always_read_set() {
    assert_eq!(deepseek4_expert_budget(Some(2 * GIB), 5), 0);
    assert_eq!(deepseek4_expert_budget(Some(2 * GIB), 0), 2 * GIB);
    assert_eq!(deepseek4_expert_budget(None, 0), 0);
    assert_eq!(deepseek4_expert_budget(Some(0), 5), 0);
    assert_eq!(deepseek4_reserve(256), (256 << 20) + (512 << 20) + (768 << 20));
}

fn cfg(stops: &[&str], budget: i64, limit: usize) -> GenConfig {
    GenConfig {
        n_predict: 8,
        stops: stops.iter().map(|s| s.to_string()).collect(),
        strip: true,
        budget,
        shift_on: true,
        keep: 4,
        limit,
    }
}

fn state(pos: usize) -> GenState {
    GenState { step: 0, pos, think: ThinkTracker::new(), text: String::new(), shifted: false }
}

fn tok(piece: &str) -> GenEvent {
    GenEvent { eos: false, piece: piece.to_string() }
}

#[test]
fn a_turn_ends_at_eos_a_stop_string_or_the_budget() {
    let c = cfg(&["User:"], -1, 4096);
    let (_, a) = generation_step(&c, state(10), GenEvent { eos: true, piece: String::new() });
    assert!(matches!(a, GenAction::Eos));
    let (s, a) = generation_step(&c, state(10), tok("Hi Us"));
    assert!(matches!(a, GenAction::Next { show: true, shift: None, announce: false, at: 10 }));
    assert_eq!(s.pos, 11);
    let (_, a) = generation_step(&c, s, tok("er: x"));
    assert!(matches!(a, GenAction::Stop { show: true }), "a stop string across two tokens");

    let b = cfg(&[], 0, 4096);
    let (s, a) = generation_step(&b, state(3), tok("<think>"));
    assert!(matches!(a, GenAction::Next { show: false, .. }));
    let (_, a) = generation_step(&b, s, tok("hmm"));
    assert!(matches!(a, GenAction::OverBudget), "a budget of 0 is exceeded by the first token inside");
}

#[test]
fn a_full_context_shifts_once_and_says_so_once() {
    let c = cfg(&[], -1, 64);
    let (s, a) = generation_step(&c, state(63), tok("a"));
    assert!(matches!(a, GenAction::Next { shift: Some((4, 29)), announce: true, at: 34, .. }));
    assert_eq!((s.pos, s.shifted), (35, true));
    let mut last = GenState { step: 7, ..state(10) };
    last.think = ThinkTracker::new();
    let (_, a) = generation_step(&c, last, tok("z"));
    assert!(matches!(a, GenAction::Done { show: true }));
}

#[test]
fn the_device_is_the_one_asked_for_or_the_best_offload_one() {
    assert_eq!(wanted_device(Some(2), None, false, false), DeviceWant::Index(2));
    assert_eq!(wanted_device(Some(2), Some(0), false, false), DeviceWant::Index(2));
    assert_eq!(wanted_device(None, Some(0), true, true), DeviceWant::NoDevice);
    assert_eq!(wanted_device(None, Some(12), false, false), DeviceWant::BestOffload);
    assert_eq!(wanted_device(None, None, false, false), DeviceWant::NoDevice);
    assert_eq!(wanted_device(None, None, true, false), DeviceWant::BestOffload);
    assert_eq!(wanted_device(None, None, false, true), DeviceWant::BestOffload);

    let names = vec!["CPU".to_string(), "Vulkan0".to_string(), "Vulkan1".to_string()];
    assert_eq!(device_index(DeviceWant::Index(3), None, None), Ok(Some(3)));
    assert_eq!(device_index(DeviceWant::NoDevice, Some("Vulkan0"), Some(&names)), Ok(None));
    assert_eq!(device_index(DeviceWant::BestOffload, Some("Vulkan1"), Some(&names)), Ok(Some(2)));
    assert_eq!(device_index(DeviceWant::BestOffload, Some("Metal"), Some(&names)), Ok(None));
    assert_eq!(device_index(DeviceWant::BestOffload, Some("Vulkan0"), None), Ok(None));
    assert_eq!(
        device_index(DeviceWant::BestOffload, None, Some(&names)),
        Err("-ngl was given but no GPU was found; --list-devices                             shows what this build can see")
    );
}
