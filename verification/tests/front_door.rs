use lib::cli::{
    alias_for, aliases, chat_body, chat_body_with, completions, escape, log_path, own_commands,
    pid_path, read_pid, redacted,
};

#[test]
fn the_front_door_adds_names_and_removes_none() {
    let all = aliases();
    for binary in [
        "chaos-run",
        "chaos-serve",
        "chaos-pull",
        "chaos-draw",
        "chaos-probe",
        "chaos-model-info",
        "chaos-meta",
        "chaos-qr",
        "chaos-worker",
    ] {
        assert!(
            all.iter().any(|a| a.binary == binary),
            "{binary} has no verb, so `chaos` cannot reach it"
        );
    }
}

#[test]
fn every_verb_is_unique_and_says_what_it_does() {
    let all = aliases();
    let own = own_commands();
    let mut seen = std::collections::HashSet::new();
    for verb in all.iter().map(|a| a.verb).chain(own.iter().map(|(v, _)| *v)) {
        assert!(seen.insert(verb), "{verb} is defined twice");
        assert!(!verb.is_empty());
        assert!(!verb.starts_with('-'), "{verb} looks like a flag");
    }
    for a in &all {
        assert!(a.blurb.len() > 12, "{}'s blurb says nothing", a.verb);
        assert!(
            !a.blurb.ends_with('.'),
            "{}'s blurb ends in a full stop; the others do not",
            a.verb
        );
    }
    assert!(alias_for("run").is_some());
    assert!(alias_for("start").is_none(), "start is not a pass-through");
    assert!(alias_for("wharrgarbl").is_none());
}

#[test]
fn a_pid_file_is_read_defensively() {
    assert_eq!(read_pid("1234"), Some(1234));
    assert_eq!(read_pid("  1234  \n"), Some(1234));
    assert_eq!(read_pid("1234\nstale junk"), Some(1234));
    for bad in ["", "   ", "not a pid", "-1", "12.5", "99999999999999999999"] {
        assert_eq!(read_pid(bad), None, "{bad:?} was read as a pid");
    }
}

#[test]
fn the_state_files_sit_beside_the_settings() {
    let dir = "/home/someone/.config/chaos";
    assert_eq!(pid_path(dir), "/home/someone/.config/chaos/node.pid");
    assert_eq!(log_path(dir), "/home/someone/.config/chaos/node.log");
    let p = std::path::PathBuf::from(pid_path(dir));
    assert_eq!(p.parent(), Some(std::path::Path::new(dir)));
    let l = std::path::PathBuf::from(log_path(dir));
    assert_eq!(l.parent(), Some(std::path::Path::new(dir)));
}

#[test]
fn a_prompt_is_escaped_into_valid_json() {
    let body = chat_body("qwen3-4b", "say \"hello\"\nand a tab\there", true);
    assert!(body.contains(r#"\"hello\""#), "{body}");
    assert!(body.contains(r"\n") && body.contains(r"\t"), "{body}");
    assert!(body.contains(r#""stream":true"#));

    let plain = chat_body("m", "hi", false);
    assert!(plain.contains(r#""stream":false"#));

    let tricky = chat_body("m", r"C:\Projects\models", true);
    assert!(tricky.contains(r"C:\\Projects\\models"), "{tricky}");
}

#[test]
fn nothing_points_at_the_reader_that_was_deleted() {
    let own = own_commands();
    let all = aliases();
    assert!(
        !own.iter().any(|(v, _)| *v == "scan"),
        "`chaos scan` is listed again; the reader it named is gone"
    );
    assert!(alias_for("scan").is_none(), "scan is not a pass-through");
    let listed: String = own
        .iter()
        .map(|(v, d)| format!("{v} {d}\n"))
        .chain(all.iter().map(|a| format!("{} {}\n", a.verb, a.blurb)))
        .collect();
    assert!(!listed.contains("/scan"), "the listing names the reader");
    assert!(
        !listed.to_lowercase().contains("read a qr"),
        "the listing still offers to read a code: {listed}"
    );
    assert!(
        own.iter().any(|(v, _)| *v == "qr") || alias_for("qr").is_some(),
        "the encoder went with the reader"
    );
}

#[test]
fn a_token_cap_is_sent_only_when_asked_for() {
    let plain = chat_body_with("m", "hi", true, None);
    assert!(!plain.contains("max_tokens"), "{plain}");
    let capped = chat_body_with("m", "hi", true, Some(220));
    assert!(capped.contains(r#""max_tokens":220"#), "{capped}");
    assert_eq!(chat_body("m", "hi", true), plain);
}

#[test]
fn completions_exist_for_every_shell_and_name_every_verb() {
    for shell in ["bash", "zsh", "fish", "powershell"] {
        let s = completions(shell).unwrap_or_else(|e| panic!("{shell}: {e}"));
        assert!(!s.is_empty());
        for verb in aliases().iter().map(|a| a.verb) {
            assert!(s.contains(verb), "{shell} completions omit {verb}");
        }
        for (verb, _) in own_commands() {
            assert!(s.contains(verb), "{shell} completions omit {verb}");
        }
    }
    let e = completions("csh").unwrap_err();
    for named in ["bash", "zsh", "fish", "powershell"] {
        assert!(e.contains(named), "the refusal does not name {named}: {e}");
    }
}

#[test]
fn a_body_holds_the_model_the_stream_flag_and_the_turn() {
    assert_eq!(
        chat_body("m", "hi", true),
        r#"{"model":"m","stream":true, "messages":[{"role":"user","content":"hi"}]}"#
    );
}

#[test]
fn every_control_character_is_escaped() {
    assert_eq!(escape("a\"b\\c\nd\re\tf"), r#"a\"b\\c\nd\re\tf"#);
    assert_eq!(escape("\u{1}"), r"\u0001");
    assert_eq!(escape("\u{1f}x"), r"\u001fx");
    assert_eq!(escape("plain text"), "plain text");
}

#[test]
fn a_pid_at_the_edge_of_u32() {
    assert_eq!(read_pid("4294967295"), Some(4294967295));
    assert_eq!(read_pid("4294967296"), None);
    assert_eq!(read_pid("+7"), Some(7));
    assert_eq!(read_pid("0"), Some(0));
}

#[test]
fn a_key_is_never_echoed() {
    let args: Vec<String> = ["--api-key", "s3cret", "-m", "model.gguf", "s3cret"]
        .iter()
        .map(|s| s.to_string())
        .collect();
    assert_eq!(redacted(&args, Some("s3cret")), "--api-key <key> -m model.gguf <key>");
    assert_eq!(redacted(&args, None), "--api-key <key> -m model.gguf s3cret");
    let empty_key: Vec<String> = vec!["".to_string(), "x".to_string()];
    assert_eq!(redacted(&empty_key, Some("")), " x", "an empty key blanks nothing");
}

#[test]
fn the_chat_body_is_one_object_with_exactly_its_members() {
    let b = lib::cli::chat_body_with("m\"x", "say \"hi\"\n", true, Some(64));
    assert_eq!(b, "{\"model\":\"m\\\"x\",\"stream\":true,\"max_tokens\":64, \"messages\":[{\"role\":\"user\",\"content\":\"say \\\"hi\\\"\\n\"}]}");
    assert!(!lib::cli::chat_body("m", "p", false).contains("max_tokens"));
}

#[test]
fn the_pid_and_the_log_share_a_directory() {
    assert_eq!(lib::cli::pid_path("/home/a/.chaos"), "/home/a/.chaos/node.pid");
    assert_eq!(lib::cli::log_path("/home/a/.chaos/"), "/home/a/.chaos/node.log");
    assert_eq!(lib::cli::pid_path(""), "node.pid");
}

#[test]
fn escaping_splits_over_concatenation_and_leaves_plain_text_alone() {
    let a = "say \"hi\"\n";
    let b = "\u{7}tab\tend";
    assert_eq!(escape(&format!("{a}{b}")), format!("{}{}", escape(a), escape(b)));
    assert_eq!(escape("plain words, nothing to do"), "plain words, nothing to do");
    assert!(escape("\u{0}\u{1f}\r\n").chars().all(|c| c as u32 >= 0x20));
}
