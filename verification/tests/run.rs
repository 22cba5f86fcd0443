use lib::run::{early_action, hf_target, model_source, url_file_name, EarlyAction, ModelSource,
    common_prefix, infill_tokens, reused_prefix, is_infill_marker, mentions_system_rejection, pick_io_mode,
    refusal, refused, take_line, unescape, Reasoning, ThinkState, ThinkTracker,
};

#[test]
fn the_common_escapes_are_read() {
    assert_eq!(unescape(r"Line one\nLine two"), "Line one\nLine two");
    assert_eq!(unescape(r"a\tb\rc\0d"), "a\tb\rc\0d");
    assert_eq!(unescape(r#"\'quoted\" \\ back"#), "'quoted\" \\ back");
    assert_eq!(unescape(r"\x41\x62"), "Ab");
}

#[test]
fn unknown_escapes_are_kept_as_written() {
    assert_eq!(unescape(r"C:\Projects\models"), r"C:\Projects\models");
    assert_eq!(unescape(r"\q"), r"\q");
    assert_eq!(unescape("ends in \\"), "ends in \\");
    assert_eq!(unescape(r"\x4"), r"\x4");
    assert_eq!(unescape(r"\xzz"), r"\xzz");
    assert_eq!(unescape(r"\x+f"), r"\x+f", "only two hex digits make an escape");
    assert_eq!(unescape(r"\x+1"), r"\x+1");
    assert_eq!(unescape(r"\xZZ"), r"\xZZ");
    assert_eq!(unescape(r"\xff"), "\u{ff}");
    assert_eq!(unescape("plain"), "plain");
    assert_eq!(unescape(""), "");
}

#[test]
fn shared_prefixes_are_counted() {
    assert_eq!(common_prefix(&[1, 2, 3], &[1, 2, 4]), 2);
    assert_eq!(common_prefix(&[1, 2], &[1, 2, 3]), 2);
    assert_eq!(common_prefix(&[], &[1]), 0);
    assert_eq!(common_prefix(&[9], &[1]), 0);
    assert_eq!(common_prefix(&[5, 6], &[5, 6]), 2);
}

#[test]
fn a_system_role_refusal_is_recognised_and_nothing_else() {
    assert!(mentions_system_rejection("System role not supported"));
    assert!(mentions_system_rejection("raise_exception: the SYSTEM ROLE must come first"));
    assert!(!mentions_system_rejection("unexpected end of template"));
    assert!(!mentions_system_rejection("role must alternate"));
    assert!(!mentions_system_rejection("system failure"));
}

#[test]
fn a_thinking_block_is_followed_across_tokens() {
    let mut t = ThinkTracker::new();
    assert!(t.accept("Hello ", true));
    assert!(t.accept("<", true), "a partial tag is still ordinary output");
    assert!(t.accept("think", true));
    assert_eq!(t.state, ThinkState::Before);
    let shown = t.accept(">", true);
    assert_eq!(t.state, ThinkState::Inside);
    assert!(!shown);
    assert!(!t.accept("pondering", true));
    assert_eq!(t.inside_tokens, 1);
    assert!(!t.accept("</thi", true));
    assert!(!t.accept("nk>", true));
    assert_eq!(t.state, ThinkState::After);
    assert!(t.accept("Answer", true));
    assert!(t.accept("<think>", true), "a second block is not opened");
    assert_eq!(t.state, ThinkState::After);
}

#[test]
fn without_stripping_everything_is_shown() {
    let mut t = ThinkTracker::new();
    for piece in ["<think>", "a", "b", "</think>", "done"] {
        assert!(t.accept(piece, false));
    }
    assert_eq!(t.state, ThinkState::After);
}

#[test]
fn a_block_past_its_budget_is_over_it() {
    let mut t = ThinkTracker::new();
    t.accept("<think>", true);
    assert!(!t.over_budget(2));
    t.accept("x", true);
    t.accept("y", true);
    assert!(!t.over_budget(2));
    t.accept("z", true);
    assert!(t.over_budget(2));
    assert!(!t.over_budget(-1), "a negative budget is no limit");
    t.accept("</think>", true);
    assert!(!t.over_budget(0));
}

#[test]
fn only_a_tail_of_long_text_is_held() {
    let mut t = ThinkTracker::new();
    t.accept(&"a".repeat(100), true);
    assert!(t.seen.len() <= 64);
    assert_eq!(t.seen.len(), 32);
    t.accept("<thi", true);
    t.accept("nk>", true);
    assert_eq!(t.state, ThinkState::Inside, "a tag split across the trim is still found");
    let mut w = ThinkTracker::new();
    w.accept(&"\u{20ac}".repeat(30), true);
    let bytes: usize = w.seen.iter().map(|c| c.len_utf8()).sum();
    assert_eq!(bytes, 33, "whole characters only: the shortest tail of at least 32 bytes");
}

#[test]
fn declined_flags_say_why() {
    let (takes, why) = refusal("--split-mode").expect("declined");
    assert!(takes);
    assert!(why.contains("SECOND USABLE DEVICE"));
    assert_eq!(refusal("--kv-offload").map(|r| r.0), Some(false));
    assert_eq!(refusal("--no-mmproj"), Some((false, "no multimodal projector support")));
    assert_eq!(refusal("--temp"), None);
    assert_eq!(refusal("--jinja"), None, "an implemented flag is not declined");
    let all = refused();
    assert_eq!(all.len(), 17);
    let mut seen = std::collections::HashSet::new();
    for (flag, _, why) in &all {
        assert!(seen.insert(*flag), "{flag} is declined twice");
        assert!(flag.starts_with("--"));
        assert!(!why.is_empty());
    }
}

#[test]
fn fill_in_the_middle_tokens_are_found_by_their_text() {
    assert!(is_infill_marker("<|fim_prefix|>"));
    assert!(is_infill_marker("<fim_middle>"));
    assert!(is_infill_marker("<PRE>"));
    assert!(!is_infill_marker("PREFIX"), "an ordinary word is not a control token");
    assert!(!is_infill_marker("<|im_start|>"));
    assert!(!is_infill_marker("<|fim_prefix"));
    let vocab: Vec<Option<String>> = vec![
        Some("hello".into()),
        Some("<|fim_prefix|>".into()),
        None,
        Some("<|fim_suffix|>".into()),
        Some("<EOT>".into()),
        Some("EOT".into()),
    ];
    assert_eq!(infill_tokens(&vocab), vec![1, 3, 4]);
    assert!(infill_tokens(&Vec::new()).is_empty());
}

#[test]
fn the_page_cache_is_bypassed_unless_the_model_fits() {
    assert_eq!(pick_io_mode(&[10, 20], Some(100)), "buffered");
    assert_eq!(pick_io_mode(&[60, 50], Some(100)), "direct");
    assert_eq!(pick_io_mode(&[50, 50], Some(100)), "buffered");
    assert_eq!(pick_io_mode(&[], Some(100)), "direct");
    assert_eq!(pick_io_mode(&[10], None), "direct");
    assert_eq!(pick_io_mode(&[10], Some(0)), "direct");
}

#[test]
fn reasoning_is_shown_by_default() {
    let r = Reasoning::default();
    assert!(!r.strip);
    assert_eq!(r.budget, -1);
    assert!(r.budget_message.is_none());
}

#[test]
fn a_stop_string_is_found_across_tokens() {
    let stops = vec!["".to_string(), "\n\nUser:".to_string()];
    assert!(!lib::run::holds_any("Hello\n\nUs", &stops));
    assert!(lib::run::holds_any("Hello\n\nUser: hi", &stops));
    assert!(!lib::run::holds_any("anything", &vec!["".to_string()]), "an empty stop string stops nothing");
}

#[test]
fn the_context_shifts_when_full() {
    assert_eq!(lib::run::shift_limit(Some(512), 4096), 512);
    assert_eq!(lib::run::shift_limit(None, 4096), 4096);
    assert_eq!(lib::run::shift_limit(None, 0), usize::MAX);
    assert_eq!(lib::run::context_shift(true, 4, 511, 512), Some((4, 253)));
    assert_eq!(lib::run::context_shift(true, 4, 100, 512), None);
    assert_eq!(lib::run::context_shift(false, 4, 511, 512), None);
    assert_eq!(lib::run::context_shift(true, 1000, 511, 512), Some((510, 1)), "never keep everything");
}

#[test]
fn a_line_completes_a_turn() {
    let mut held = String::new();
    assert!(take_line(&mut held, "hello there\r\n", false));
    assert_eq!(held, "hello there");
}

#[test]
fn a_trailing_backslash_continues_the_turn_in_multiline_mode() {
    let mut held = String::new();
    assert!(!take_line(&mut held, "first\\\n", true));
    assert_eq!(held, "first\n");
    assert!(take_line(&mut held, "second\n", true));
    assert_eq!(held, "first\nsecond");

    let mut single = String::new();
    assert!(take_line(&mut single, "keep\\\n", false));
    assert_eq!(single, "keep\\");
}

#[test]
fn a_blank_turn_is_started_again() {
    let mut held = String::new();
    assert!(!take_line(&mut held, "   \n", false));
    assert_eq!(held, "");
    let mut held = String::from("\n");
    assert!(!take_line(&mut held, " \n", true));
    assert_eq!(held, "");
}

fn argv(a: &[&str]) -> Vec<String> {
    a.iter().map(|s| s.to_string()).collect()
}

#[test]
fn help_is_honoured_wherever_it_stands() {
    assert!(matches!(early_action(&argv(&["-m", "model.gguf", "--help"])), EarlyAction::Help));
    assert!(matches!(early_action(&argv(&["model.gguf", "-h"])), EarlyAction::Help));
    assert!(matches!(early_action(&argv(&["--version"])), EarlyAction::Version));
    assert!(matches!(early_action(&argv(&["x", "--usage"])), EarlyAction::Terse));
    assert!(matches!(early_action(&argv(&["--completion-bash"])), EarlyAction::CompletionBash));
    assert!(matches!(early_action(&argv(&["--update", "-y"])), EarlyAction::Update(true)));
    assert!(matches!(early_action(&argv(&["--update"])), EarlyAction::Update(false)));
}

#[test]
fn after_a_double_dash_nothing_is_a_flag() {
    match early_action(&argv(&["model.gguf", "--", "--help"])) {
        EarlyAction::Run(Some(p), 1) => assert_eq!(p, "model.gguf"),
        _ => panic!("the prompt after -- is not scanned"),
    }
}

#[test]
fn a_leading_flag_is_not_the_model_path() {
    assert!(matches!(early_action(&argv(&["-m", "x.gguf", "-p", "hi"])), EarlyAction::Run(None, 0)));
    assert!(matches!(early_action(&argv(&["-", "hi"])), EarlyAction::Run(Some(_), 1)));
    assert!(matches!(early_action(&argv(&[])), EarlyAction::Usage));
}

#[test]
fn a_url_comes_first_and_is_saved_under_its_last_segment() {
    assert!(matches!(
        model_source(Some("o/n/f.gguf"), None, Some("https://x.org/m/q4.gguf")),
        ModelSource::Url(_)
    ));
    assert!(matches!(model_source(Some("o/n/f.gguf"), Some("o/n"), None), ModelSource::HfSpec(_)));
    assert!(matches!(model_source(None, Some("o/n"), None), ModelSource::HfRepo(_)));
    assert!(matches!(model_source(None, None, None), ModelSource::Local));
    assert_eq!(url_file_name("https://x.org/m/q4.gguf"), "q4.gguf");
    assert_eq!(url_file_name("plain"), "plain");
    assert_eq!(url_file_name("https://x.org/m/"), "");
}

#[test]
fn a_repo_without_a_file_is_refused_rather_than_guessed() {
    assert_eq!(hf_target("o/n", Some("a.gguf"), Some("b.gguf")).unwrap(), ("o/n".to_string(), "a.gguf".to_string()));
    assert_eq!(hf_target("o/n", None, Some("b.gguf")).unwrap(), ("o/n".to_string(), "b.gguf".to_string()));
    let e = hf_target("o/n", None, None).unwrap_err();
    assert!(e.starts_with("--hf-repo o/n names a repo but not a file."));
    assert!(e.contains("-hf o/n/<name.gguf>"));
}

#[test]
fn the_reasoning_budget_counts_tokens_inside_the_block() {
    let mut t = ThinkTracker::new();
    assert!(!t.over_budget(0), "a fresh tracker is never over");
    t.accept("<think>", true);
    assert!(!t.over_budget(0));
    t.accept("a", true);
    assert!(t.over_budget(0), "0 is exceeded by the first token inside");
    assert!(!t.over_budget(1));
    assert!(!t.over_budget(-1), "-1 is unlimited");
    t.accept("b", true);
    assert!(t.over_budget(1));
    t.accept("</think>", true);
    assert!(!t.over_budget(0), "past the block nothing is over budget");
}

#[test]
fn shard_sizes_that_cannot_be_added_are_caught() {
    assert!(lib::run::sizes_add_up(&[1, 2, 3]));
    assert!(!lib::run::sizes_add_up(&[u64::MAX, 1]));
}

#[test]
fn a_saved_prompt_is_reused_up_to_its_first_difference() {
    assert_eq!(reused_prefix(&[1, 2, 3, 9], &[1, 2, 3, 4, 5]), 3);
    assert_eq!(reused_prefix(&[1, 2, 3, 4, 5], &[1, 2, 3, 4, 5]), 4, "the last token is run again");
    assert_eq!(reused_prefix(&[7], &[1, 2]), 0);
    assert_eq!(reused_prefix(&[1, 2], &[]), 0);
}

#[test]
fn text_without_the_closing_tag_stays_inside_the_block() {
    let mut t = ThinkTracker::new();
    t.accept("<think>", true);
    for piece in ["</", "thin", "k", " no", " tag >", "</th", "ink", "?"] {
        t.accept(piece, true);
        assert_eq!(t.state, ThinkState::Inside);
    }
    assert_eq!(t.inside_tokens, 8);
    assert!(t.over_budget(7));
    assert!(!t.over_budget(8));
    assert!(!t.over_budget(-1));
}
