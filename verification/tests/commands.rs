use lib::commands::{
    command_for, connect_target, help_text, status_target, tail_lines, Command, ConnectRefusal,
};

fn strings(v: &[&str]) -> Vec<String> {
    v.iter().map(|s| s.to_string()).collect()
}

#[test]
fn verbs_name_commands() {
    for v in ["", "help", "-h", "--help"] {
        assert!(matches!(command_for(v), Command::Help), "{v:?}");
    }
    for v in ["-V", "--version", "version"] {
        assert!(matches!(command_for(v), Command::Version), "{v:?}");
    }
    assert!(matches!(command_for("start"), Command::Start));
    assert!(matches!(command_for("stop"), Command::Stop));
    assert!(matches!(command_for("status"), Command::Status));
    assert!(matches!(command_for("connect"), Command::Connect));
    assert!(matches!(command_for("config"), Command::Config));
    assert!(matches!(command_for("completions"), Command::Completions));
    match command_for("fit") {
        Command::Pass(a) => assert_eq!(a.binary, "chaos-model-info"),
        _ => panic!("fit is a pass-through"),
    }
    assert!(matches!(command_for("scan"), Command::Unknown), "the reader is gone");
    assert!(matches!(command_for("HELP"), Command::Unknown));
}

#[test]
fn the_help_lists_every_verb_in_a_column() {
    let h = help_text("1.2.3");
    assert!(h.starts_with("chaos 1.2.3 -- run models larger than memory\n"));
    assert!(h.contains("\n  run          run a model on a prompt, here in this terminal\n"));
    assert!(h.contains("\n  completions  shell completions: bash, zsh, fish or powershell\n"));
    assert!(h.contains("A node other machines can use:"));
    assert!(h.ends_with("use another machine's\n"));
    let run_at = h.find("  run ").expect("run");
    let start_at = h.find("  start ").expect("start");
    assert!(run_at < start_at, "pass-throughs come first");
}

#[test]
fn connect_needs_a_route_and_a_prompt() {
    let (base, prompt) = connect_target(&strings(&["http://192.168.1.20:8080/", "what", "is", "2+2"]), None)
        .expect("a route and a prompt");
    assert_eq!(base, "192.168.1.20:8080");
    assert_eq!(prompt, "what is 2+2");
    assert_eq!(connect_target(&strings(&[]), None).unwrap_err(), ConnectRefusal::NoRoute);
    assert_eq!(connect_target(&strings(&[]), Some("10.0.0.2:8080")).unwrap_err(), ConnectRefusal::NoPrompt);
    assert_eq!(connect_target(&strings(&["10.0.0.2:8080"]), None).unwrap_err(), ConnectRefusal::NoPrompt);
    assert_eq!(connect_target(&strings(&["", "hi"]), None).unwrap_err(), ConnectRefusal::NoRoute);
    let (base, _) = connect_target(&strings(&["http://http://x//", "hi"]), None).expect("route");
    assert_eq!(base, "x", "every leading scheme and trailing slash goes");
}

#[test]
fn status_asks_this_machine_unless_told_otherwise() {
    let (route, url) = status_target(&strings(&[]), 8080);
    assert_eq!(route, "127.0.0.1:8080");
    assert_eq!(url, "http://127.0.0.1:8080/status");
    let (route, url) = status_target(&strings(&["http://10.0.0.5:9000"]), 8080);
    assert_eq!(route, "http://10.0.0.5:9000");
    assert_eq!(url, "http://10.0.0.5:9000/status");
}

#[test]
fn a_dead_node_is_shown_by_its_last_words() {
    let log = "loading\n\n  \nerror: no such model   \r\nexiting\n";
    assert_eq!(tail_lines(log, 2), vec!["error: no such model".to_string(), "exiting".to_string()]);
    assert_eq!(tail_lines(log, 12), vec!["loading", "error: no such model", "exiting"]);
    assert!(tail_lines("", 3).is_empty());
    assert!(tail_lines(log, 0).is_empty());
}
