//! What `chaos` makes of its arguments: which command a verb names, the help
//! it prints, where `status` and `connect` go, and what a dead node's log is
//! shown of.
use vstd::prelude::*;
use crate::cli::{alias_for, alias_row, alias_rows, aliases, own_commands, own_rows, Alias};
use crate::text::{
    chars_of, join, lines, push_chars, push_decimal, push_joined_owned, push_str, split_lines,
    starts_with, str_eq, string_of, sub_chars, trim, trim_end, trimmed, views, decimal,
    skip_white_back,
};

verus! {

/// A command `chaos` runs itself, or a pass-through to another binary.
#[derive(Clone, Copy)]
pub enum Command {
    Help,
    Version,
    Start,
    Stop,
    Status,
    Connect,
    Config,
    Completions,
    Pass(Alias),
    Unknown,
}

/// The command a verb names among those `chaos` runs itself.
pub open spec fn builtin(verb: Seq<char>) -> Option<Command> {
    if verb == ""@ || verb == "help"@ || verb == "-h"@ || verb == "--help"@ {
        Some(Command::Help)
    } else if verb == "-V"@ || verb == "--version"@ || verb == "version"@ {
        Some(Command::Version)
    } else if verb == "start"@ {
        Some(Command::Start)
    } else if verb == "stop"@ {
        Some(Command::Stop)
    } else if verb == "status"@ {
        Some(Command::Status)
    } else if verb == "connect"@ {
        Some(Command::Connect)
    } else if verb == "config"@ {
        Some(Command::Config)
    } else if verb == "completions"@ {
        Some(Command::Completions)
    } else {
        None
    }
}

/// Which command the first argument names.
pub fn command_for(verb: &str) -> (r: Command)
    ensures
        match builtin(verb@) {
            Some(c) => r == c,
            None => match r {
                Command::Pass(a) => exists|i: int|
                    0 <= i < alias_rows().len() && alias_rows()[i] == alias_row(a)
                        && alias_rows()[i].0 == verb@ && forall|j: int|
                        0 <= j < i ==> alias_rows()[j].0 != verb@,
                Command::Unknown => forall|i: int|
                    0 <= i < alias_rows().len() ==> alias_rows()[i].0 != verb@,
                _ => false,
            },
        },
{
    if str_eq(verb, "") || str_eq(verb, "help") || str_eq(verb, "-h") || str_eq(verb, "--help") {
        Command::Help
    } else if str_eq(verb, "-V") || str_eq(verb, "--version") || str_eq(verb, "version") {
        Command::Version
    } else if str_eq(verb, "start") {
        Command::Start
    } else if str_eq(verb, "stop") {
        Command::Stop
    } else if str_eq(verb, "status") {
        Command::Status
    } else if str_eq(verb, "connect") {
        Command::Connect
    } else if str_eq(verb, "config") {
        Command::Config
    } else if str_eq(verb, "completions") {
        Command::Completions
    } else {
        match alias_for(verb) {
            Some(a) => Command::Pass(a),
            None => Command::Unknown,
        }
    }
}

/// `s` left-aligned in a field of `w` characters, as `{:<w}` writes it.
pub open spec fn pad(s: Seq<char>, w: nat) -> Seq<char> {
    if s.len() >= w {
        s
    } else {
        s + Seq::new((w - s.len()) as nat, |i: int| ' ')
    }
}

/// One row of the listing.
pub open spec fn help_row(verb: Seq<char>, blurb: Seq<char>) -> Seq<char> {
    "  "@ + pad(verb, 12) + " "@ + blurb + "\n"@
}

pub open spec fn help_rows(rows: Seq<(Seq<char>, Seq<char>)>) -> Seq<char>
    decreases rows.len(),
{
    if rows.len() == 0 {
        Seq::empty()
    } else {
        help_rows(rows.drop_last()) + help_row(rows.last().0, rows.last().1)
    }
}

pub const HELP_TAIL: &'static str = "\nEvery command above is also a binary of its own: `chaos run` and\n`chaos-run` are the same program with the same arguments, so nothing\nwritten against the old names has to change.\n\n  chaos pull qwen3-4b          a good first model, about 2.5 GB\n  chaos run qwen3-4b \"hello\"   answer a prompt and exit\n  chaos start qwen3-4b         a node in the background\n  chaos status                 what it is doing\n  chaos connect 192.168.1.20:8080 \"hello\"   use another machine's\n";

/// The listing `chaos` prints on its own: every pass-through, then every
/// command it runs itself, then how the names relate.
pub open spec fn help_spec(version: Seq<char>) -> Seq<char> {
    "chaos "@ + version + " -- run models larger than memory\n\n  chaos <command> [arguments]\n\nA model, a prompt, a terminal:\n"@
        + help_rows(alias_rows().map_values(|r: (Seq<char>, Seq<char>, Seq<char>)| (r.0, r.2)))
        + "\nA node other machines can use:\n"@ + help_rows(own_rows()) + HELP_TAIL@
}

fn push_padded(out: &mut String, s: &str, w: usize)
    ensures
        final(out)@ == old(out)@ + pad(s@, w as nat),
{
    let n = chars_of(s).len();
    push_str(out, s);
    let ghost mid = out@;
    if n < w {
        let mut k: usize = n;
        while k < w
            invariant
                n <= k <= w,
                n == s@.len(),
                out@ == mid + Seq::new((k - n) as nat, |i: int| ' '),
            decreases w - k,
        {
            crate::text::push_char(out, ' ');
            k = k + 1;
            assert(out@ =~= mid + Seq::new((k - n) as nat, |i: int| ' '));
        }
    }
}

fn push_help_row(out: &mut String, verb: &str, blurb: &str)
    ensures
        final(out)@ == old(out)@ + help_row(verb@, blurb@),
{
    let ghost start = out@;
    push_str(out, "  ");
    push_padded(out, verb, 12);
    push_str(out, " ");
    push_str(out, blurb);
    push_str(out, "\n");
    assert(out@ =~= start + help_row(verb@, blurb@));
}

/// What `chaos` with no command prints, for this build's version.
pub fn help_text(version: &str) -> (r: String)
    ensures
        r@ == help_spec(version@),
{
    let mut out = String::new();
    push_str(&mut out, "chaos ");
    push_str(&mut out, version);
    push_str(
        &mut out,
        " -- run models larger than memory\n\n  chaos <command> [arguments]\n\nA model, a prompt, a terminal:\n",
    );
    let all = aliases();
    let ghost arows = alias_rows().map_values(|r: (Seq<char>, Seq<char>, Seq<char>)| (r.0, r.2));
    let ghost before = out@;
    let mut i: usize = 0;
    while i < all.len()
        invariant
            i <= all.len(),
            all@.map_values(|a: Alias| alias_row(a)) == alias_rows(),
            arows == alias_rows().map_values(|r: (Seq<char>, Seq<char>, Seq<char>)| (r.0, r.2)),
            out@ == before + help_rows(arows.take(i as int)),
        decreases all.len() - i,
    {
        assert(arows.take(i + 1).drop_last() =~= arows.take(i as int));
        assert(arows[i as int] == (all@[i as int].verb@, all@[i as int].blurb@));
        push_help_row(&mut out, all[i].verb, all[i].blurb);
        i = i + 1;
    }
    assert(arows.take(all.len() as int) =~= arows);
    push_str(&mut out, "\nA node other machines can use:\n");
    let own = own_commands();
    let ghost orows = own_rows();
    let ghost mid = out@;
    let mut j: usize = 0;
    while j < own.len()
        invariant
            j <= own.len(),
            own@.map_values(|p: (&'static str, &'static str)| (p.0@, p.1@)) == orows,
            orows == own_rows(),
            out@ == mid + help_rows(orows.take(j as int)),
        decreases own.len() - j,
    {
        assert(orows.take(j + 1).drop_last() =~= orows.take(j as int));
        assert(orows[j as int] == (own@[j as int].0@, own@[j as int].1@));
        push_help_row(&mut out, own[j].0, own[j].1);
        j = j + 1;
    }
    assert(orows.take(own.len() as int) =~= orows);
    push_str(&mut out, HELP_TAIL);
    out
}

/// `s` with every leading copy of `p` removed, as `str::trim_start_matches`.
pub open spec fn strip_leading(s: Seq<char>, p: Seq<char>) -> Seq<char>
    decreases s.len(),
{
    if p.len() > 0 && starts_with(s, p) {
        strip_leading(s.skip(p.len() as int), p)
    } else {
        s
    }
}

/// `s` with every trailing `c` removed, as `str::trim_end_matches`.
pub open spec fn strip_trailing(s: Seq<char>, c: char) -> Seq<char>
    decreases s.len(),
{
    if s.len() > 0 && s.last() == c {
        strip_trailing(s.drop_last(), c)
    } else {
        s
    }
}

fn strip_http(s: &[char]) -> (r: Vec<char>)
    ensures
        r@ == strip_leading(s@, "http://"@),
{
    let p = chars_of("http://");
    let mut at: usize = 0;
    proof {
        reveal_strlit("http://");
    }
    assert(s@.skip(0) =~= s@);
    while p.len() <= s.len() - at && crate::text::has_prefix(
        sub_chars(s, at, s.len()).as_slice(),
        "http://",
    )
        invariant
            at <= s.len(),
            p@ == "http://"@,
            p@.len() == 7,
            strip_leading(s@.skip(at as int), "http://"@) == strip_leading(s@, "http://"@),
        decreases s.len() - at,
    {
        assert(s@.subrange(at as int, s.len() as int) =~= s@.skip(at as int));
        assert(s@.skip(at as int).skip(7) =~= s@.skip(at + 7));
        at = at + p.len();
    }
    proof {
        if p.len() <= s.len() - at {
            assert(s@.subrange(at as int, s.len() as int) =~= s@.skip(at as int));
        } else {
            assert(!starts_with(s@.skip(at as int), "http://"@));
        }
    }
    sub_chars(s, at, s.len())
}

fn strip_slashes(s: &[char]) -> (r: Vec<char>)
    ensures
        r@ == strip_trailing(s@, '/'),
{
    let mut end: usize = s.len();
    assert(s@.subrange(0, end as int) =~= s@);
    while end > 0 && s[end - 1] == '/'
        invariant
            end <= s.len(),
            strip_trailing(s@.subrange(0, end as int), '/') == strip_trailing(s@, '/'),
        decreases end,
    {
        assert(s@.subrange(0, end as int).drop_last() =~= s@.subrange(0, end - 1));
        end = end - 1;
    }
    sub_chars(s, 0, end)
}

/// Why `chaos connect` did not go anywhere.
#[derive(Clone, Copy, PartialEq, Eq, Debug, Structural)]
pub enum ConnectRefusal {
    /// No route given, and none in the settings.
    NoRoute,
    /// A route but nothing to ask it.
    NoPrompt,
}

pub open spec fn arg_views(args: Seq<String>) -> Seq<Seq<char>> {
    args.map_values(|a: String| a@)
}

/// The route `chaos connect` was given (the settings' `core_addr` when none
/// was) and the prompt, every later argument joined by spaces.
pub open spec fn connect_args(args: Seq<Seq<char>>, core_addr: Option<Seq<char>>) -> (Seq<char>, Seq<char>) {
    if args.len() == 0 {
        (
            match core_addr {
                Some(a) => a,
                None => Seq::empty(),
            },
            Seq::empty(),
        )
    } else {
        (args[0], join(args.skip(1), " "@))
    }
}

/// Where `chaos connect` sends its prompt: the route without its scheme or
/// trailing slashes, and the prompt; or why it cannot.
pub open spec fn connect_spec(args: Seq<Seq<char>>, core_addr: Option<Seq<char>>) -> Result<
    (Seq<char>, Seq<char>),
    ConnectRefusal,
> {
    let (route, prompt) = connect_args(args, core_addr);
    if route.len() == 0 {
        Err(ConnectRefusal::NoRoute)
    } else if prompt.len() == 0 {
        Err(ConnectRefusal::NoPrompt)
    } else {
        Ok((strip_trailing(strip_leading(route, "http://"@), '/'), prompt))
    }
}

/// The node `chaos connect` talks to, and what it asks.
pub fn connect_target(args: &Vec<String>, core_addr: Option<&str>) -> (r: Result<(String, String), ConnectRefusal>)
    ensures
        match connect_spec(
            arg_views(args@),
            match core_addr {
                Some(a) => Some(a@),
                None => None,
            },
        ) {
            Ok((base, prompt)) => r matches Ok((b, p)) && b@ == base && p@ == prompt,
            Err(e) => r == Err::<(String, String), ConnectRefusal>(e),
        },
{
    let ghost av = arg_views(args@);
    let (route, prompt) = if args.len() == 0 {
        let route = match core_addr {
            Some(a) => string_of(chars_of(a).as_slice()),
            None => String::new(),
        };
        (route, String::new())
    } else {
        let mut rest: Vec<String> = Vec::new();
        let mut k: usize = 1;
        while k < args.len()
            invariant
                1 <= k <= args.len(),
                av == arg_views(args@),
                rest@.map_values(|p: String| p@) == av.subrange(1, k as int),
            decreases args.len() - k,
        {
            let a = args[k].clone();
            assert(av[k as int] == a@);
            let ghost prev = rest@.map_values(|p: String| p@);
            rest.push(a);
            assert(rest@.map_values(|p: String| p@) =~= prev.push(a@));
            k = k + 1;
            assert(rest@.map_values(|p: String| p@) =~= av.subrange(1, k as int));
        }
        assert(av.subrange(1, args.len() as int) =~= av.skip(1));
        let mut prompt = String::new();
        push_joined_owned(&mut prompt, &rest, " ");
        (args[0].clone(), prompt)
    };
    let rc = chars_of(route.as_str());
    if rc.len() == 0 {
        return Err(ConnectRefusal::NoRoute);
    }
    if chars_of(prompt.as_str()).len() == 0 {
        return Err(ConnectRefusal::NoPrompt);
    }
    let bare = strip_http(rc.as_slice());
    let base = strip_slashes(bare.as_slice());
    Ok((string_of(base.as_slice()), prompt))
}

/// The route `chaos status` asks: the one given, or this machine's own node
/// on the configured port.
pub open spec fn status_route_spec(args: Seq<Seq<char>>, port: u16) -> Seq<char> {
    if args.len() > 0 {
        args[0]
    } else {
        "127.0.0.1:"@ + decimal(port as nat)
    }
}

/// The `/status` URL of a route.
pub open spec fn status_url_spec(route: Seq<char>) -> Seq<char> {
    "http://"@ + strip_leading(route, "http://"@) + "/status"@
}

/// What `chaos status` asks, and where.
pub fn status_target(args: &Vec<String>, port: u16) -> (r: (String, String))
    ensures
        r.0@ == status_route_spec(arg_views(args@), port),
        r.1@ == status_url_spec(r.0@),
{
    let route = if args.len() > 0 {
        args[0].clone()
    } else {
        let mut s = String::new();
        push_str(&mut s, "127.0.0.1:");
        push_decimal(&mut s, port as u64);
        s
    };
    let rc = chars_of(route.as_str());
    let bare = strip_http(rc.as_slice());
    let mut url = String::new();
    push_str(&mut url, "http://");
    push_chars(&mut url, bare.as_slice());
    push_str(&mut url, "/status");
    (route, url)
}

/// The lines of a log that say something, each without trailing space.
pub open spec fn said(ls: Seq<Seq<char>>) -> Seq<Seq<char>> {
    ls.filter(|l: Seq<char>| trim(l).len() > 0).map_values(|l: Seq<char>| trim_end(l))
}

/// The last `n` of them, for reporting why something died.
pub open spec fn tail_spec(text: Seq<char>, n: nat) -> Seq<Seq<char>> {
    let s = said(lines(text));
    if s.len() > n {
        s.skip(s.len() - n)
    } else {
        s
    }
}

/// The last `n` non-empty lines of a log's text.
pub fn tail_lines(text: &str, n: usize) -> (r: Vec<String>)
    ensures
        r@.map_values(|l: String| l@) == tail_spec(text@, n as nat),
{
    let cs = chars_of(text);
    let ls = split_lines(cs.as_slice());
    let ghost lv = views(ls@);
    let mut kept: Vec<String> = Vec::new();
    let mut i: usize = 0;
    while i < ls.len()
        invariant
            i <= ls.len(),
            lv == views(ls@),
            lv == lines(text@),
            kept@.map_values(|l: String| l@) == said(lv.take(i as int)),
        decreases ls.len() - i,
    {
        proof {
            reveal_with_fuel(Seq::<_>::filter, 1);
            assert(lv.take(i + 1).drop_last() =~= lv.take(i as int));
            assert(lv.take(i + 1).last() == ls@[i as int]@);
        }
        let t = trimmed(ls[i].as_slice());
        if t.len() > 0 {
            let j = skip_white_back(ls[i].as_slice(), 0);
            let e = sub_chars(ls[i].as_slice(), 0, j);
            assert(ls@[i as int]@.subrange(0, ls@[i as int]@.len() as int) =~= ls@[i as int]@);
            let ghost before = kept@.map_values(|l: String| l@);
            kept.push(string_of(e.as_slice()));
            assert(kept@.map_values(|l: String| l@) =~= before.push(e@));
            assert(said(lv.take(i + 1)) =~= said(lv.take(i as int)).push(trim_end(ls@[i as int]@)));
        } else {
            assert(said(lv.take(i + 1)) =~= said(lv.take(i as int)));
        }
        i = i + 1;
    }
    assert(lv.take(ls.len() as int) =~= lv);
    if kept.len() <= n {
        return kept;
    }
    let from = kept.len() - n;
    let mut out: Vec<String> = Vec::new();
    let mut k: usize = from;
    let ghost kv = kept@.map_values(|l: String| l@);
    while k < kept.len()
        invariant
            from <= k <= kept.len(),
            kv == kept@.map_values(|l: String| l@),
            out@.map_values(|l: String| l@) == kv.subrange(from as int, k as int),
        decreases kept.len() - k,
    {
        let l = kept[k].clone();
        assert(kv[k as int] == l@);
        let ghost prev = out@.map_values(|l: String| l@);
        out.push(l);
        assert(out@.map_values(|l: String| l@) =~= prev.push(l@));
        k = k + 1;
        assert(out@.map_values(|l: String| l@) =~= kv.subrange(from as int, k as int));
    }
    assert(kv.subrange(from as int, kept.len() as int) =~= kv.skip(from as int));
    out
}

} // verus!
