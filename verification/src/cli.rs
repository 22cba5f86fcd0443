//! `chaos`, the one command a person types: its table of subcommands, and the
//! text it builds and reads.
//!
//! Every pass-through keeps the old binary name working; `chaos run` runs
//! `chaos-run` with its arguments untouched.
use vstd::prelude::*;
use crate::text::{
    chars_of, decimal, first_line, join, line_one, parse_u32, parse_u32_chars, push_char,
    push_decimal, push_joined, push_joined_owned, push_str, push_without, str_eq, trim, trimmed,
    without, concat_all, debug_str, debug_quoted, opt_str_view,
};
use crate::json::{
    hex_lower, json_unescape, lemma_unescape_plain, push_hex, lemma_unescape_short, lemma_unescape_u,
    prepend, u_escape,
};

verus! {

/// A subcommand that is just another binary under a friendlier name.
#[derive(Clone, Copy)]
pub struct Alias {
    /// What the person types after `chaos`.
    pub verb: &'static str,
    /// The binary it becomes, without any platform extension.
    pub binary: &'static str,
    /// One line, for the help.
    pub blurb: &'static str,
}

pub open spec fn alias_row(a: Alias) -> (Seq<char>, Seq<char>, Seq<char>) {
    (a.verb@, a.binary@, a.blurb@)
}

/// Every pass-through, in the order the help lists them: fetch a model, run
/// it, look at the machine.
pub open spec fn alias_rows() -> Seq<(Seq<char>, Seq<char>, Seq<char>)> {
    seq![
        ("run"@, "chaos-run"@, "run a model on a prompt, here in this terminal"@),
        ("serve"@, "chaos-serve"@, "serve the OpenAI API in the foreground (see `start` for a node)"@),
        ("pull"@, "chaos-pull"@, "fetch a model, or list what can be fetched"@),
        ("draw"@, "chaos-draw"@, "draw a picture from a prompt"@),
        ("probe"@, "chaos-probe"@, "what this machine has, and what to close before a big run"@),
        ("fit"@, "chaos-model-info"@, "whether a container fits here, and how fast it will be"@),
        ("meta"@, "chaos-meta"@, "what a container says about itself"@),
        ("qr"@, "chaos-qr"@, "draw a route as a scannable code in this terminal"@),
        ("worker"@, "chaos-worker"@, "hold experts in this machine's memory for a CORE to use"@),
    ]
}

/// The subcommands `chaos` implements itself: verb and blurb.
pub open spec fn own_rows() -> Seq<(Seq<char>, Seq<char>)> {
    seq![
        ("start"@, "start a node in the background, with a log and a pid file"@),
        ("stop"@, "stop the node this machine started"@),
        ("status"@, "what the node is doing -- locally and over HTTP, no curl"@),
        ("connect"@, "talk to another machine's node: chaos connect <route> \"prompt\""@),
        ("update"@, "check for a newer Chaos and install it -- no manual download"@),
        ("config"@, "the settings every tier reads, and where they come from"@),
        ("completions"@, "shell completions: bash, zsh, fish or powershell"@),
        ("verify"@, "hash a model and check it is the file it was when it arrived"@),
    ]
}

/// Every pass-through, in help order.
pub fn aliases() -> (r: Vec<Alias>)
    ensures
        r@.map_values(|a: Alias| alias_row(a)) == alias_rows(),
{
    let r = vec![
        Alias { verb: "run", binary: "chaos-run", blurb: "run a model on a prompt, here in this terminal" },
        Alias { verb: "serve", binary: "chaos-serve", blurb: "serve the OpenAI API in the foreground (see `start` for a node)" },
        Alias { verb: "pull", binary: "chaos-pull", blurb: "fetch a model, or list what can be fetched" },
        Alias { verb: "draw", binary: "chaos-draw", blurb: "draw a picture from a prompt" },
        Alias { verb: "probe", binary: "chaos-probe", blurb: "what this machine has, and what to close before a big run" },
        Alias { verb: "fit", binary: "chaos-model-info", blurb: "whether a container fits here, and how fast it will be" },
        Alias { verb: "meta", binary: "chaos-meta", blurb: "what a container says about itself" },
        Alias { verb: "qr", binary: "chaos-qr", blurb: "draw a route as a scannable code in this terminal" },
        Alias { verb: "worker", binary: "chaos-worker", blurb: "hold experts in this machine's memory for a CORE to use" },
    ];
    assert(r@.map_values(|a: Alias| alias_row(a)) =~= alias_rows());
    r
}

/// The subcommands `chaos` implements itself, as `(verb, blurb)`.
pub fn own_commands() -> (r: Vec<(&'static str, &'static str)>)
    ensures
        r@.map_values(|p: (&'static str, &'static str)| (p.0@, p.1@)) == own_rows(),
{
    let r = vec![
        ("start", "start a node in the background, with a log and a pid file"),
        ("stop", "stop the node this machine started"),
        ("status", "what the node is doing -- locally and over HTTP, no curl"),
        ("connect", "talk to another machine's node: chaos connect <route> \"prompt\""),
        ("update", "check for a newer Chaos and install it -- no manual download"),
        ("config", "the settings every tier reads, and where they come from"),
        ("completions", "shell completions: bash, zsh, fish or powershell"),
        ("verify", "hash a model and check it is the file it was when it arrived"),
    ];
    assert(r@.map_values(|p: (&'static str, &'static str)| (p.0@, p.1@)) =~= own_rows());
    r
}

/// The binary a pass-through verb runs: `chaos-` and the verb itself, save
/// `fit`, which runs `chaos-model-info`.
pub open spec fn binary_named_by(verb: Seq<char>) -> Seq<char> {
    if verb == "fit"@ {
        "chaos-model-info"@
    } else {
        "chaos-"@ + verb
    }
}

/// Every pass-through verb `v` runs the binary `chaos-v`, except `fit`,
/// which runs `chaos-model-info`: no two verbs share or swap a binary.
pub proof fn lemma_each_verb_runs_its_own_binary()
    ensures
        forall|i: int|
            0 <= i < alias_rows().len() ==> #[trigger] alias_rows()[i].1 == binary_named_by(alias_rows()[i].0),
{
    reveal_strlit("chaos-");
    reveal_strlit("run");
    reveal_strlit("chaos-run");
    reveal_strlit("serve");
    reveal_strlit("chaos-serve");
    reveal_strlit("pull");
    reveal_strlit("chaos-pull");
    reveal_strlit("draw");
    reveal_strlit("chaos-draw");
    reveal_strlit("probe");
    reveal_strlit("chaos-probe");
    reveal_strlit("fit");
    reveal_strlit("chaos-model-info");
    reveal_strlit("meta");
    reveal_strlit("chaos-meta");
    reveal_strlit("qr");
    reveal_strlit("chaos-qr");
    reveal_strlit("worker");
    reveal_strlit("chaos-worker");
    assert("chaos-run"@ =~= "chaos-"@ + "run"@);
    assert(alias_rows()[0].0 == "run"@);
    assert(alias_rows()[0].1 == "chaos-run"@);
    assert("run"@[0] != 'f');
    assert(alias_rows()[0].1 == binary_named_by(alias_rows()[0].0));
    assert("chaos-serve"@ =~= "chaos-"@ + "serve"@);
    assert("serve"@ != "fit"@);
    assert(alias_rows()[1].1 == binary_named_by(alias_rows()[1].0));
    assert("chaos-pull"@ =~= "chaos-"@ + "pull"@);
    assert("pull"@ != "fit"@);
    assert(alias_rows()[2].1 == binary_named_by(alias_rows()[2].0));
    assert("chaos-draw"@ =~= "chaos-"@ + "draw"@);
    assert("draw"@ != "fit"@);
    assert(alias_rows()[3].1 == binary_named_by(alias_rows()[3].0));
    assert("chaos-probe"@ =~= "chaos-"@ + "probe"@);
    assert("probe"@ != "fit"@);
    assert(alias_rows()[4].1 == binary_named_by(alias_rows()[4].0));
    assert(alias_rows()[5].1 == binary_named_by(alias_rows()[5].0));
    assert("chaos-meta"@ =~= "chaos-"@ + "meta"@);
    assert("meta"@ != "fit"@);
    assert(alias_rows()[6].1 == binary_named_by(alias_rows()[6].0));
    assert("chaos-qr"@ =~= "chaos-"@ + "qr"@);
    assert("qr"@ != "fit"@);
    assert(alias_rows()[7].1 == binary_named_by(alias_rows()[7].0));
    assert("chaos-worker"@ =~= "chaos-"@ + "worker"@);
    assert("worker"@ != "fit"@);
    assert(alias_rows()[8].1 == binary_named_by(alias_rows()[8].0));
    assert forall|i: int| 0 <= i < alias_rows().len() implies #[trigger] alias_rows()[i].1
        == binary_named_by(alias_rows()[i].0) by {
        assert(0 <= i < 9);
    }
}

/// The pass-through a verb names, if any: the first row whose verb it is.
pub fn alias_for(verb: &str) -> (r: Option<Alias>)
    ensures
        match r {
            Some(a) => exists|i: int|
                0 <= i < alias_rows().len() && alias_rows()[i] == alias_row(a) && alias_rows()[i].0
                    == verb@ && forall|j: int| 0 <= j < i ==> alias_rows()[j].0 != verb@,
            None => forall|i: int| 0 <= i < alias_rows().len() ==> alias_rows()[i].0 != verb@,
        },
        r matches Some(a) ==> a.verb@ == verb@ && a.binary@ == binary_named_by(verb@),
{
    let all = aliases();
    let ghost rows = all@.map_values(|a: Alias| alias_row(a));
    let mut i: usize = 0;
    while i < all.len()
        invariant
            i <= all.len(),
            rows == alias_rows(),
            rows == all@.map_values(|a: Alias| alias_row(a)),
            forall|j: int| 0 <= j < i ==> rows[j].0 != verb@,
        decreases all.len() - i,
    {
        let a = all[i];
        assert(rows[i as int] == alias_row(a));
        if str_eq(a.verb, verb) {
            proof {
                lemma_each_verb_runs_its_own_binary();
            }
            assert(alias_rows()[i as int].1 == binary_named_by(alias_rows()[i as int].0));
            return Some(a);
        }
        i = i + 1;
    }
    None
}

/// What `escape` writes for one character.
pub open spec fn escape_char(c: char) -> Seq<char> {
    if c == '"' {
        seq!['\\', '"']
    } else if c == '\\' {
        seq!['\\', '\\']
    } else if c == '\n' {
        seq!['\\', 'n']
    } else if c == '\r' {
        seq!['\\', 'r']
    } else if c == '\t' {
        seq!['\\', 't']
    } else if (c as u32) < 0x20 {
        u_escape(c)
    } else {
        seq![c]
    }
}

/// A string escaped for a JSON body, character by character.
pub open spec fn escape_spec(s: Seq<char>) -> Seq<char>
    decreases s.len(),
{
    if s.len() == 0 {
        Seq::empty()
    } else {
        escape_char(s[0]) + escape_spec(s.drop_first())
    }
}

proof fn lemma_escape_push(s: Seq<char>, c: char)
    ensures
        escape_spec(s.push(c)) == escape_spec(s) + escape_char(c),
    decreases s.len(),
{
    if s.len() == 0 {
        assert(s.push(c).drop_first() =~= Seq::<char>::empty());
        assert(escape_spec(Seq::<char>::empty()) == Seq::<char>::empty());
        assert(escape_spec(s.push(c)) =~= escape_char(c));
    } else {
        lemma_escape_push(s.drop_first(), c);
        assert(s.push(c).drop_first() =~= s.drop_first().push(c));
        assert(escape_spec(s.push(c)) =~= escape_spec(s) + escape_char(c));
    }
}

proof fn lemma_unescape_char(c: char, rest: Seq<char>)
    ensures
        json_unescape(escape_char(c) + rest) == prepend(c, json_unescape(rest)),
{
    if c == '"' {
        lemma_unescape_short('"', rest);
    } else if c == '\\' {
        lemma_unescape_short('\\', rest);
    } else if c == '\n' {
        lemma_unescape_short('n', rest);
    } else if c == '\r' {
        lemma_unescape_short('r', rest);
    } else if c == '\t' {
        lemma_unescape_short('t', rest);
    } else if (c as u32) < 0x20 {
        assert(escape_char(c) == u_escape(c));
        lemma_unescape_u(c, rest);
    } else {
        lemma_unescape_plain(c, rest);
    }
}

/// A prompt escaped by `escape` reads back, through a JSON reader, as exactly
/// the prompt: quotes, backslashes and control characters all survive.
pub proof fn lemma_escape_reads_back(s: Seq<char>)
    ensures
        json_unescape(escape_spec(s)) == Some(s),
    decreases s.len(),
{
    if s.len() == 0 {
        assert(escape_spec(s) =~= Seq::<char>::empty());
    } else {
        lemma_escape_reads_back(s.drop_first());
        lemma_unescape_char(s[0], escape_spec(s.drop_first()));
        assert(seq![s[0]] + s.drop_first() =~= s);
    }
}

/// No character of `s` is a control character (below U+0020).
pub open spec fn free_of_controls(s: Seq<char>) -> bool {
    forall|i: int| 0 <= i < s.len() ==> (#[trigger] s[i] as u32) >= 0x20
}

/// Text that `escape` has nothing to do to: no quote, no backslash, no
/// control character.
pub open spec fn needs_no_escape(s: Seq<char>) -> bool {
    forall|i: int| 0 <= i < s.len() ==> #[trigger] s[i] != '"' && s[i] != '\\' && s[i] as u32 >= 0x20
}

proof fn lemma_escape_char_is_clean(c: char)
    ensures
        free_of_controls(escape_char(c)),
{
    if c != '"' && c != '\\' && c != '\n' && c != '\r' && c != '\t' && (c as u32) < 0x20 {
        let u = c as u32;
        assert((u / 16) < 10 && (u % 16) < 16);
        let e = escape_char(c);
        assert(e == u_escape(c));
        assert forall|i: int| 0 <= i < e.len() implies (#[trigger] e[i] as u32) >= 0x20 by {
            if i == 4 {
                assert(e[4] == hex_lower((u / 16) as nat));
            } else if i == 5 {
                assert(e[5] == hex_lower((u % 16) as nat));
            }
        }
    }
}

/// The laws of `escape` over whole strings: escaping a concatenation
/// concatenates the escapes; the escaped text holds no control character;
/// and text with no quote, backslash or control character comes out as it
/// went in.
pub proof fn lemma_escape_laws(s: Seq<char>, a: Seq<char>, b: Seq<char>)
    ensures
        escape_spec(a + b) == escape_spec(a) + escape_spec(b),
        free_of_controls(escape_spec(s)),
        needs_no_escape(s) ==> escape_spec(s) == s,
{
    lemma_escape_concat(a, b);
    lemma_escape_clean(s);
    if needs_no_escape(s) {
        lemma_escape_plain(s);
    }
}

proof fn lemma_escape_concat(a: Seq<char>, b: Seq<char>)
    ensures
        escape_spec(a + b) == escape_spec(a) + escape_spec(b),
    decreases a.len(),
{
    if a.len() == 0 {
        assert(a + b =~= b);
        assert(escape_spec(a) =~= Seq::<char>::empty());
        assert(escape_spec(a) + escape_spec(b) =~= escape_spec(b));
    } else {
        lemma_escape_concat(a.drop_first(), b);
        assert((a + b).drop_first() =~= a.drop_first() + b);
        assert((a + b)[0] == a[0]);
        assert(escape_spec(a + b) =~= escape_spec(a) + escape_spec(b));
    }
}

proof fn lemma_escape_clean(s: Seq<char>)
    ensures
        free_of_controls(escape_spec(s)),
    decreases s.len(),
{
    if s.len() > 0 {
        lemma_escape_clean(s.drop_first());
        lemma_escape_char_is_clean(s[0]);
        let e = escape_char(s[0]);
        let r = escape_spec(s.drop_first());
        assert forall|i: int| 0 <= i < (e + r).len() implies (#[trigger] (e + r)[i] as u32) >= 0x20 by {
            if i < e.len() {
                assert((e + r)[i] == e[i]);
            } else {
                assert((e + r)[i] == r[i - e.len()]);
            }
        }
    }
}

proof fn lemma_escape_plain(s: Seq<char>)
    requires
        needs_no_escape(s),
    ensures
        escape_spec(s) == s,
    decreases s.len(),
{
    if s.len() == 0 {
        assert(escape_spec(s) =~= s);
    } else {
        assert(s[0] != '"' && s[0] != '\\' && s[0] as u32 >= 0x20);
        assert(needs_no_escape(s.drop_first())) by {
            assert forall|i: int| 0 <= i < s.drop_first().len() implies #[trigger] s.drop_first()[i] != '"'
                && s.drop_first()[i] != '\\' && s.drop_first()[i] as u32 >= 0x20 by {
                assert(s.drop_first()[i] == s[i + 1]);
            }
        }
        lemma_escape_plain(s.drop_first());
        assert(seq![s[0]] + s.drop_first() =~= s);
    }
}

/// Escape a string for a JSON body.
pub fn escape(s: &str) -> (out: String)
    ensures
        out@ == escape_spec(s@),
{
    let cs = chars_of(s);
    let mut out = String::new();
    let mut i: usize = 0;
    while i < cs.len()
        invariant
            i <= cs.len(),
            cs@ == s@,
            out@ == escape_spec(cs@.take(i as int)),
        decreases cs.len() - i,
    {
        let c = cs[i];
        let ghost before = cs@.take(i as int);
        proof {
            reveal_strlit("\\\"");
            reveal_strlit("\\\\");
            reveal_strlit("\\n");
            reveal_strlit("\\r");
            reveal_strlit("\\t");
            reveal_strlit("\\u00");
        }
        if c == '"' {
            push_str(&mut out, "\\\"");
        } else if c == '\\' {
            push_str(&mut out, "\\\\");
        } else if c == '\n' {
            push_str(&mut out, "\\n");
        } else if c == '\r' {
            push_str(&mut out, "\\r");
        } else if c == '\t' {
            push_str(&mut out, "\\t");
        } else if (c as u32) < 0x20 {
            push_str(&mut out, "\\u00");
            push_hex(&mut out, (c as u32) / 16);
            push_hex(&mut out, (c as u32) % 16);
        } else {
            push_char(&mut out, c);
        }
        proof {
            lemma_escape_push(before, c);
            assert(cs@.take(i + 1) == before.push(c));
            assert(out@ =~= escape_spec(before) + escape_char(c));
        }
        i = i + 1;
    }
    assert(cs@.take(cs.len() as int) == s@);
    out
}

/// The JSON body `chat_body_with` sends.
pub open spec fn chat_body_spec(
    model: Seq<char>,
    prompt: Seq<char>,
    stream: bool,
    max_tokens: Option<u32>,
) -> Seq<char> {
    let cap = match max_tokens {
        Some(n) => ",\"max_tokens\":"@ + decimal(n as nat),
        None => Seq::empty(),
    };
    "{\"model\":\""@ + escape_spec(model) + "\",\"stream\":"@ + (if stream {
        "true"@
    } else {
        "false"@
    }) + cap + ", \"messages\":[{\"role\":\"user\",\"content\":\""@ + escape_spec(prompt)
        + "\"}]}"@
}

/// The JSON body for one chat turn, streaming or not.
pub fn chat_body(model: &str, prompt: &str, stream: bool) -> (r: String)
    ensures
        r@ == chat_body_spec(model@, prompt@, stream, None),
{
    chat_body_with(model, prompt, stream, None)
}

/// A chat request, optionally raising the token cap. Without a cap the body
/// is exactly what `chat_body` sends.
pub fn chat_body_with(model: &str, prompt: &str, stream: bool, max_tokens: Option<u32>) -> (r:
    String)
    ensures
        r@ == chat_body_spec(model@, prompt@, stream, max_tokens),
{
    let mut out = String::new();
    push_str(&mut out, "{\"model\":\"");
    let m = escape(model);
    push_str(&mut out, m.as_str());
    push_str(&mut out, "\",\"stream\":");
    if stream {
        push_str(&mut out, "true");
    } else {
        push_str(&mut out, "false");
    }
    match max_tokens {
        Some(n) => {
            push_str(&mut out, ",\"max_tokens\":");
            push_decimal(&mut out, n as u64);
        },
        None => {},
    }
    push_str(&mut out, ", \"messages\":[{\"role\":\"user\",\"content\":\"");
    let p = escape(prompt);
    push_str(&mut out, p.as_str());
    push_str(&mut out, "\"}]}");
    assert(out@ =~= chat_body_spec(model@, prompt@, stream, max_tokens));
    out
}

/// What a pid file says, if it says anything usable: the first line of the
/// trimmed text, trimmed again and read as a `u32`.
pub open spec fn read_pid_spec(text: Seq<char>) -> Option<u32> {
    parse_u32(trim(first_line(trim(text))))
}

/// What a pid file says, if it says anything usable.
///
/// A pid file outlives the process it names, so reading one is "there was a
/// node", never "a node is running"; and it never panics on what it finds.
pub fn read_pid(text: &str) -> (r: Option<u32>)
    ensures
        r == read_pid_spec(text@),
{
    let cs = chars_of(text);
    let t = trimmed(cs.as_slice());
    let line = line_one(t.as_slice());
    let l = trimmed(line.as_slice());
    parse_u32_chars(l.as_slice())
}

/// The pid file `chaos start` writes: the pid in decimal and a newline.
pub open spec fn pid_file_text(pid: u32) -> Seq<char> {
    decimal(pid as nat).push('\n')
}

/// A pid file written by `chaos start` is read back as the pid it holds.
pub proof fn lemma_pid_file_round_trips(pid: u32)
    ensures
        read_pid_spec(pid_file_text(pid)) == Some(pid),
{
    let d = decimal(pid as nat);
    crate::text::lemma_decimal_digits(pid as nat);
    crate::text::lemma_trim_digits(d);
    crate::text::lemma_trim_digits_newline(d);
    crate::text::lemma_first_line_digits(d);
}

/// `PathBuf::join` with a plain file name, on `/`-separated paths.
pub open spec fn join_path(dir: Seq<char>, name: Seq<char>) -> Seq<char> {
    if dir.len() == 0 {
        name
    } else if dir.last() == '/' {
        dir + name
    } else {
        dir + seq!['/'] + name
    }
}

fn join_file(dir: &str, name: &str) -> (r: String)
    ensures
        r@ == join_path(dir@, name@),
{
    let cs = chars_of(dir);
    let mut out = crate::text::string_of(cs.as_slice());
    if cs.len() > 0 && cs[cs.len() - 1] != '/' {
        push_char(&mut out, '/');
    }
    push_str(&mut out, name);
    out
}

/// The pid file of a node, beside the settings in `state_dir`.
pub fn pid_path(state_dir: &str) -> (r: String)
    ensures
        r@ == join_path(state_dir@, "node.pid"@),
{
    join_file(state_dir, "node.pid")
}

/// The log of a node, beside the settings in `state_dir`.
pub fn log_path(state_dir: &str) -> (r: String)
    ensures
        r@ == join_path(state_dir@, "node.log"@),
{
    join_file(state_dir, "node.log")
}

/// A JSON string literal holding `s`.
pub open spec fn json_str(s: Seq<char>) -> Seq<char> {
    "\""@ + escape_spec(s) + "\""@
}

/// The chat request is one JSON object with exactly the members `model`,
/// `stream`, `max_tokens` when a cap was given (and only then), and
/// `messages`, a list of one user message holding the prompt. Each string
/// member is a literal whose body a JSON reader reads back as exactly the
/// text given (so it holds no bare quote and ends where it should), and the
/// cap is written in decimal digits that read back as the cap.
pub proof fn lemma_chat_body_is_one_object(model: Seq<char>, prompt: Seq<char>, stream: bool, max_tokens: Option<u32>)
    ensures
        chat_body_spec(model, prompt, stream, max_tokens) == "{\"model\":"@ + json_str(model) + ",\"stream\":"@
            + (if stream { "true"@ } else { "false"@ }) + (match max_tokens {
            Some(n) => ",\"max_tokens\":"@ + decimal(n as nat),
            None => Seq::empty(),
        }) + ", \"messages\":[{\"role\":\"user\",\"content\":"@ + json_str(prompt) + "}]}"@,
        json_unescape(escape_spec(model)) == Some(model),
        json_unescape(escape_spec(prompt)) == Some(prompt),
        max_tokens matches Some(n) ==> (crate::text::all_digits(decimal(n as nat)) && crate::text::digits_value(decimal(n as nat)) == n),
{
    lemma_escape_reads_back(model);
    lemma_escape_reads_back(prompt);
    if let Some(n) = max_tokens {
        crate::text::lemma_decimal_digits(n as nat);
    }
    reveal_strlit("{\"model\":\"");
    reveal_strlit("{\"model\":");
    reveal_strlit("\"");
    reveal_strlit("\",\"stream\":");
    reveal_strlit(",\"stream\":");
    reveal_strlit(", \"messages\":[{\"role\":\"user\",\"content\":\"");
    reveal_strlit(", \"messages\":[{\"role\":\"user\",\"content\":");
    reveal_strlit("\"}]}");
    reveal_strlit("}]}");
    assert(chat_body_spec(model, prompt, stream, max_tokens) =~= "{\"model\":"@ + json_str(model) + ",\"stream\":"@
        + (if stream { "true"@ } else { "false"@ }) + (match max_tokens {
        Some(n) => ",\"max_tokens\":"@ + decimal(n as nat),
        None => Seq::empty(),
    }) + ", \"messages\":[{\"role\":\"user\",\"content\":"@ + json_str(prompt) + "}]}"@);
}

proof fn lemma_last_segment_after_slash(a: Seq<char>, b: Seq<char>)
    requires
        a.len() == 0 || a.last() == '/',
        !b.contains('/'),
    ensures
        crate::run::last_segment(a + b) == b,
    decreases b.len(),
{
    if b.len() == 0 {
        assert(a + b =~= a);
    } else {
        lemma_last_segment_after_slash(a, b.drop_last());
        assert((a + b).drop_last() =~= a + b.drop_last());
        assert((a + b).last() == b.last());
        assert(b.drop_last().push(b.last()) =~= b);
    }
}

/// The pid file and the log sit side by side in the state directory: both
/// are that directory (with one separator after it) followed by their own
/// file name, so they share a parent, and they are never the same file.
pub proof fn lemma_state_files_sit_together(dir: Seq<char>)
    ensures
        join_path(dir, "node.pid"@) == join_path(dir, Seq::empty()) + "node.pid"@,
        join_path(dir, "node.log"@) == join_path(dir, Seq::empty()) + "node.log"@,
        dir.len() > 0 ==> join_path(dir, Seq::empty()).last() == '/',
        dir.len() > 0 ==> (join_path(dir, Seq::empty()) == dir || join_path(dir, Seq::empty()) == dir.push('/')),
        crate::run::last_segment(join_path(dir, "node.pid"@)) == "node.pid"@,
        crate::run::last_segment(join_path(dir, "node.log"@)) == "node.log"@,
        join_path(dir, "node.pid"@) != join_path(dir, "node.log"@),
{
    reveal_strlit("node.pid");
    reveal_strlit("node.log");
    let d = join_path(dir, Seq::empty());
    assert(join_path(dir, "node.pid"@) =~= d + "node.pid"@);
    assert(join_path(dir, "node.log"@) =~= d + "node.log"@);
    if dir.len() > 0 && dir.last() != '/' {
        assert(d =~= dir.push('/'));
    }
    if dir.len() == 0 {
        assert(d =~= Seq::<char>::empty());
    }
    lemma_last_segment_after_slash(d, "node.pid"@);
    lemma_last_segment_after_slash(d, "node.log"@);
    assert((d + "node.pid"@)[d.len() + 5int] == 'p');
    assert((d + "node.log"@)[d.len() + 5int] == 'l');
}

/// Whether argument `i` is the value that follows `--api-key`.
pub open spec fn is_key_value(args: Seq<Seq<char>>, i: int) -> bool
    decreases i,
{
    if i <= 0 {
        false
    } else {
        !is_key_value(args, i - 1) && args[i - 1] == "--api-key"@
    }
}

/// How argument `i` is shown: the key's value, and anything equal to a
/// non-empty key, become `<key>`.
pub open spec fn shown_arg(args: Seq<Seq<char>>, key: Option<Seq<char>>, i: int) -> Seq<char> {
    if is_key_value(args, i) {
        "<key>"@
    } else if key is Some && key->0.len() > 0 && args[i] == key->0 {
        "<key>"@
    } else {
        args[i]
    }
}

/// The argv a node would get, with the key blanked, joined by spaces.
pub open spec fn redacted_spec(args: Seq<Seq<char>>, key: Option<Seq<char>>) -> Seq<char> {
    join(Seq::new(args.len(), |i: int| shown_arg(args, key, i)), " "@)
}


/// The key never reaches the terminal: no argument is shown as a non-empty
/// key (one spelled `<key>` is indistinguishable from the blank), and the
/// value after `--api-key` is always blanked.
pub proof fn lemma_key_is_never_shown(args: Seq<Seq<char>>, key: Seq<char>, i: int)
    requires
        0 <= i < args.len(),
    ensures
        key.len() > 0 && key != "<key>"@ ==> shown_arg(args, Some(key), i) != key,
        is_key_value(args, i) ==> shown_arg(args, Some(key), i) == "<key>"@,
{
}

/// The argv a node would get, with the key blanked.
pub fn redacted(args: &[String], key: Option<&str>) -> (r: String)
    ensures
        r@ == redacted_spec(args@.map_values(|a: String| a@), opt_str_view(key)),
{
    let ghost views = args@.map_values(|a: String| a@);
    let ghost k = opt_str_view(key);
    let mut shown: Vec<&str> = Vec::new();
    let mut skip_next = false;
    let mut i: usize = 0;
    while i < args.len()
        invariant
            i <= args.len(),
            views == args@.map_values(|a: String| a@),
            k == opt_str_view(key),
            skip_next == is_key_value(views, i as int),
            shown@.len() == i,
            forall|j: int| 0 <= j < i ==> #[trigger] shown@[j]@ == shown_arg(views, k, j),
        decreases args.len() - i,
    {
        let a = args[i].as_str();
        assert(a@ == views[i as int]);
        if skip_next {
            shown.push("<key>");
            skip_next = false;
        } else {
            let is_flag = str_eq(a, "--api-key");
            let mut hidden = false;
            match key {
                Some(kk) => {
                    if !kk.is_empty() && str_eq(a, kk) {
                        hidden = true;
                    }
                },
                None => {},
            }
            if hidden {
                shown.push("<key>");
            } else {
                shown.push(a);
            }
            skip_next = is_flag;
        }
        assert(shown@[i as int]@ == shown_arg(views, k, i as int));
        assert(skip_next == is_key_value(views, i + 1));
        i = i + 1;
    }
    let mut out = String::new();
    push_joined(&mut out, &shown, " ");
    assert(shown@.map_values(|p: &str| p@) =~= Seq::new(
        views.len(),
        |j: int| shown_arg(views, k, j),
    ));
    out
}

pub const BASH_HEAD: &'static str = "# chaos completions for bash. Add to ~/.bashrc:\n#   source <(chaos completions bash)\n_chaos() {\n  local cur=\"${COMP_WORDS[COMP_CWORD]}\"\n  if [ \"$COMP_CWORD\" -eq 1 ]; then\n    COMPREPLY=($(compgen -W \"";

pub const BASH_TAIL: &'static str = "\" -- \"$cur\"))\n  else\n    COMPREPLY=($(compgen -f -- \"$cur\"))\n  fi\n}\ncomplete -F _chaos chaos\n";

pub const ZSH_HEAD: &'static str = "# chaos completions for zsh. Add to ~/.zshrc:\n#   source <(chaos completions zsh)\n_chaos() {\n  if (( CURRENT == 2 )); then\n    compadd ";

pub const ZSH_TAIL: &'static str = "\n  else\n    _files\n  fi\n}\ncompdef _chaos chaos\n";

pub const FISH_HEAD: &'static str = "# chaos completions for fish. Save as:\n#   ~/.config/fish/completions/chaos.fish\n";

pub const FISH_LINE: &'static str = "complete -c chaos -n __fish_use_subcommand -a ";

pub const PS_HEAD: &'static str = "# chaos completions for PowerShell. Add to $PROFILE:\n#   chaos completions powershell | Out-String | Invoke-Expression\nRegister-ArgumentCompleter -Native -CommandName chaos -ScriptBlock {\n  param($wordToComplete, $commandAst, $cursorPosition)\n  @(";

pub const PS_TAIL: &'static str = ") | Where-Object { $_ -like \"$wordToComplete*\" } |\n    ForEach-Object { [System.Management.Automation.CompletionResult]::new($_, $_, 'ParameterValue', $_) }\n}\n";

pub const NO_SHELL_TAIL: &'static str = ". Try bash, zsh, fish or powershell.";

/// Every verb a completion offers: the pass-throughs, `chaos`'s own, `help`.
pub open spec fn completion_verbs() -> Seq<Seq<char>> {
    alias_rows().map_values(|r: (Seq<char>, Seq<char>, Seq<char>)| r.0) + own_rows().map_values(
        |r: (Seq<char>, Seq<char>)| r.0,
    ) + seq!["help"@]
}

/// The verbs of both tables, pass-throughs first, in help order.
pub open spec fn table_verbs() -> Seq<Seq<char>> {
    alias_rows().map_values(|r: (Seq<char>, Seq<char>, Seq<char>)| r.0) + own_rows().map_values(
        |r: (Seq<char>, Seq<char>)| r.0,
    )
}

/// The bash, zsh and PowerShell completions offer every pass-through verb
/// and every verb of `chaos`'s own, in help order, and then `help`, the one
/// verb neither table lists: `chaos he<TAB>` completes.
pub proof fn lemma_completions_offer_help()
    ensures
        completion_script("bash"@) == Some(BASH_HEAD@ + join(table_verbs(), " "@) + " help"@ + BASH_TAIL@),
        completion_script("zsh"@) == Some(ZSH_HEAD@ + join(table_verbs(), " "@) + " help"@ + ZSH_TAIL@),
        completion_script("powershell"@) == Some(PS_HEAD@ + join(
            table_verbs().map_values(|v: Seq<char>| "'"@ + v + "'"@),
            ", "@,
        ) + ", 'help'"@ + PS_TAIL@),
{
    reveal_strlit(" ");
    reveal_strlit("help");
    reveal_strlit(" help");
    reveal_strlit("'");
    reveal_strlit(", ");
    reveal_strlit(", 'help'");
    reveal_strlit("bash");
    reveal_strlit("zsh");
    reveal_strlit("fish");
    reveal_strlit("powershell");
    let cv = completion_verbs();
    assert(cv.len() >= 2);
    assert(cv.drop_last() =~= table_verbs());
    assert(cv.last() == "help"@);
    assert(join(cv, " "@) =~= join(table_verbs(), " "@) + " help"@);
    let q = |v: Seq<char>| "'"@ + v + "'"@;
    let qv = cv.map_values(q);
    assert(qv.drop_last() =~= table_verbs().map_values(q));
    assert(qv.last() =~= ", 'help'"@.skip(2));
    assert(join(qv, ", "@) =~= join(table_verbs().map_values(q), ", "@) + ", 'help'"@);
    assert("zsh"@.len() != "bash"@.len());
    assert("powershell"@.len() == 10 && "bash"@.len() == 4 && "zsh"@.len() == 3 && "fish"@.len() == 4);
    assert(completion_script("zsh"@)->0 =~= ZSH_HEAD@ + join(table_verbs(), " "@) + " help"@ + ZSH_TAIL@);
    assert(cv.map_values(|v: Seq<char>| "'"@ + v + "'"@) =~= qv);
    assert(table_verbs().map_values(|v: Seq<char>| "'"@ + v + "'"@) =~= table_verbs().map_values(q));
    assert(completion_script("powershell"@)->0 =~= PS_HEAD@ + join(
        table_verbs().map_values(|v: Seq<char>| "'"@ + v + "'"@),
        ", "@,
    ) + ", 'help'"@ + PS_TAIL@);
}

/// One fish `complete` line; apostrophes are dropped from the description.
pub open spec fn fish_line(verb: Seq<char>, blurb: Seq<char>) -> Seq<char> {
    FISH_LINE@ + verb + " -d '"@ + without(blurb, '\'') + "'\n"@
}

/// The completion script for a shell, or `None` for a shell with none.
pub open spec fn completion_script(shell: Seq<char>) -> Option<Seq<char>> {
    let list = join(completion_verbs(), " "@);
    if shell == "bash"@ {
        Some(BASH_HEAD@ + list + BASH_TAIL@)
    } else if shell == "zsh"@ {
        Some(ZSH_HEAD@ + list + ZSH_TAIL@)
    } else if shell == "fish"@ {
        Some(FISH_HEAD@ + concat_all(
            alias_rows().map_values(|r: (Seq<char>, Seq<char>, Seq<char>)| fish_line(r.0, r.2)),
        ) + concat_all(own_rows().map_values(|r: (Seq<char>, Seq<char>)| fish_line(r.0, r.1))))
    } else if shell == "powershell"@ {
        Some(PS_HEAD@ + join(completion_verbs().map_values(|v: Seq<char>| "'"@ + v + "'"@), ", "@)
            + PS_TAIL@)
    } else {
        None
    }
}

/// The refusal for a shell without completions, naming the four that have them.
pub open spec fn no_completions(shell: Seq<char>) -> Seq<char> {
    "no completions for "@ + debug_str(shell) + NO_SHELL_TAIL@
}

fn completion_verb_list() -> (r: Vec<&'static str>)
    ensures
        r@.map_values(|p: &str| p@) == completion_verbs(),
{
    let mut r: Vec<&'static str> = Vec::new();
    let a = aliases();
    let o = own_commands();
    let ghost ar = a@.map_values(|x: Alias| alias_row(x));
    let ghost or = o@.map_values(|p: (&'static str, &'static str)| (p.0@, p.1@));
    let mut i: usize = 0;
    while i < a.len()
        invariant
            i <= a.len(),
            ar == a@.map_values(|x: Alias| alias_row(x)),
            ar == alias_rows(),
            r@.len() == i,
            forall|k: int| 0 <= k < i ==> #[trigger] r@[k]@ == alias_rows()[k].0,
        decreases a.len() - i,
    {
        assert(ar[i as int] == alias_row(a@[i as int]));
        r.push(a[i].verb);
        i = i + 1;
    }
    let n = a.len();
    let mut j: usize = 0;
    while j < o.len()
        invariant
            j <= o.len(),
            n == alias_rows().len(),
            or == o@.map_values(|p: (&'static str, &'static str)| (p.0@, p.1@)),
            or == own_rows(),
            r@.len() == n + j,
            forall|k: int| 0 <= k < n ==> #[trigger] r@[k]@ == alias_rows()[k].0,
            forall|k: int| n <= k < n + j ==> #[trigger] r@[k]@ == own_rows()[k - n].0,
        decreases o.len() - j,
    {
        assert(or[j as int] == (o@[j as int].0@, o@[j as int].1@));
        r.push(o[j].0);
        j = j + 1;
    }
    r.push("help");
    assert(r@.map_values(|p: &str| p@) =~= completion_verbs());
    r
}

/// The completion script for a shell.
///
/// Generated from the same tables the help prints, so a subcommand added
/// there appears in all four scripts.
pub fn completions(shell: &str) -> (r: Result<String, String>)
    ensures
        match r {
            Ok(t) => completion_script(shell@) == Some(t@),
            Err(e) => completion_script(shell@) is None && e@ == no_completions(shell@),
        },
{
    let verbs = completion_verb_list();
    let mut out = String::new();
    if str_eq(shell, "bash") {
        push_str(&mut out, BASH_HEAD);
        push_joined(&mut out, &verbs, " ");
        push_str(&mut out, BASH_TAIL);
        assert(out@ =~= completion_script(shell@)->0);
        Ok(out)
    } else if str_eq(shell, "zsh") {
        push_str(&mut out, ZSH_HEAD);
        push_joined(&mut out, &verbs, " ");
        push_str(&mut out, ZSH_TAIL);
        assert(out@ =~= completion_script(shell@)->0);
        Ok(out)
    } else if str_eq(shell, "fish") {
        push_str(&mut out, FISH_HEAD);
        let a = aliases();
        let ghost ar = a@.map_values(|x: Alias| alias_row(x));
        let ghost start = out@;
        let mut i: usize = 0;
        while i < a.len()
            invariant
                i <= a.len(),
                ar == a@.map_values(|x: Alias| alias_row(x)),
                out@ == start + concat_all(
                    ar.take(i as int).map_values(
                        |r: (Seq<char>, Seq<char>, Seq<char>)| fish_line(r.0, r.2),
                    ),
                ),
            decreases a.len() - i,
        {
            push_fish_line(&mut out, a[i].verb, a[i].blurb);
            proof {
                let f = |r: (Seq<char>, Seq<char>, Seq<char>)| fish_line(r.0, r.2);
                assert(ar.take(i + 1).map_values(f).drop_last() =~= ar.take(i as int).map_values(f));
            }
            i = i + 1;
        }
        assert(ar.take(a.len() as int) == ar);
        let o = own_commands();
        let ghost or = o@.map_values(|p: (&'static str, &'static str)| (p.0@, p.1@));
        let ghost mid = out@;
        let mut j: usize = 0;
        while j < o.len()
            invariant
                j <= o.len(),
                or == o@.map_values(|p: (&'static str, &'static str)| (p.0@, p.1@)),
                out@ == mid + concat_all(
                    or.take(j as int).map_values(|r: (Seq<char>, Seq<char>)| fish_line(r.0, r.1)),
                ),
            decreases o.len() - j,
        {
            push_fish_line(&mut out, o[j].0, o[j].1);
            proof {
                let f = |r: (Seq<char>, Seq<char>)| fish_line(r.0, r.1);
                assert(or.take(j + 1).map_values(f).drop_last() =~= or.take(j as int).map_values(f));
            }
            j = j + 1;
        }
        assert(or.take(o.len() as int) == or);
        assert(out@ =~= completion_script(shell@)->0);
        Ok(out)
    } else if str_eq(shell, "powershell") {
        push_str(&mut out, PS_HEAD);
        let mut quoted: Vec<String> = Vec::new();
        let mut i: usize = 0;
        while i < verbs.len()
            invariant
                i <= verbs.len(),
                quoted@.len() == i,
                forall|k: int| 0 <= k < i ==> #[trigger] quoted@[k]@ == "'"@ + verbs@[k]@ + "'"@,
            decreases verbs.len() - i,
        {
            let mut q = String::new();
            push_str(&mut q, "'");
            push_str(&mut q, verbs[i]);
            push_str(&mut q, "'");
            quoted.push(q);
            i = i + 1;
        }
        push_joined_owned(&mut out, &quoted, ", ");
        push_str(&mut out, PS_TAIL);
        assert(quoted@.map_values(|p: String| p@) =~= completion_verbs().map_values(
            |v: Seq<char>| "'"@ + v + "'"@,
        ));
        assert(out@ =~= completion_script(shell@)->0);
        Ok(out)
    } else {
        let mut e = String::new();
        push_str(&mut e, "no completions for ");
        let d = debug_quoted(shell);
        push_str(&mut e, d.as_str());
        push_str(&mut e, NO_SHELL_TAIL);
        Err(e)
    }
}

fn push_fish_line(out: &mut String, verb: &str, blurb: &str)
    ensures
        final(out)@ == old(out)@ + fish_line(verb@, blurb@),
{
    push_str(out, FISH_LINE);
    push_str(out, verb);
    push_str(out, " -d '");
    push_without(out, blurb, '\'');
    push_str(out, "'\n");
    assert(final(out)@ =~= old(out)@ + fish_line(verb@, blurb@));
}

} // verus!
