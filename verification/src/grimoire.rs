//! The brand pages: the burning grimoire, and the scrying circle that reads it.
//!
//! The art is authored as two HTML *fragments* (a `<title>`, a `<link>` to a
//! font service, then `<style>` and the page). A browser handed a fragment
//! renders it in quirks mode, so [`page`] wraps one in a real document, drops
//! the font links (the faces are embedded instead, so the page fetches
//! nothing), and pushes in the route the host application knows.
use vstd::prelude::*;
use crate::json::{
    hex_lower, json_unescape, lemma_unescape_plain, lemma_unescape_short, lemma_unescape_u, prepend,
    push_hex, u_escape,
};
use crate::text::{
    chars_of, contains, ends_with, has_infix, has_prefix, has_suffix, join, join_lines, lines,
    opt_str_view, push_char, push_chars, push_str, skip_white, split_lines, starts_with, str_eq,
    string_of, sub_chars, trim, trim_start, trimmed, views,
};

verus! {

/// Which of the two pages to build.
#[derive(Clone, Copy, PartialEq, Eq, Debug, Structural)]
pub enum Page {
    /// The burning book, carrying this node's route.
    Mark,
    /// The reader.
    Scry,
}

/// What the host application knows and the page cannot work out for itself.
#[derive(Clone, Copy, Debug)]
pub struct Host<'a> {
    /// The address another machine uses to reach this node, e.g.
    /// `http://192.168.1.20:8080`. `None` leaves the page to infer it.
    pub endpoint: Option<&'a str>,
    /// `Some("dark")` or `Some("light")` stamps the theme on `<html>`; `None`
    /// lets the operating system's preference decide.
    pub theme: Option<&'a str>,
}

impl<'a> Default for Host<'a> {
    fn default() -> (h: Self)
        ensures
            h.endpoint is None,
            h.theme is None,
    {
        Host { endpoint: None, theme: None }
    }
}

/// The authored sources the pages are built from: the two fragments and the
/// embedded font faces.
#[derive(Clone, Copy, Debug)]
pub struct Sources<'a> {
    /// The mark: a book bearing the sigil, burning inside a rune circle.
    pub mark: &'a str,
    /// The scrying circle: the same ring as a viewfinder.
    pub scry: &'a str,
    /// The font faces, as CSS with the faces inlined.
    pub fonts: &'a str,
}

/// What a fragment line's `<title>` holds, if the trimmed line is exactly one
/// title element.
pub open spec fn title_in(line: Seq<char>) -> Option<Seq<char>> {
    let t = trim(line);
    let open = "<title>"@;
    let close = "</title>"@;
    if starts_with(t, open) && ends_with(t.skip(open.len() as int), close) {
        Some(t.subrange(open.len() as int, t.len() - close.len()))
    } else {
        None
    }
}

/// Whether a fragment line is left out of the body: a title line, or a
/// `<link>` to a font service.
pub open spec fn dropped(line: Seq<char>) -> bool {
    ||| title_in(line) is Some
    ||| starts_with(trim(line), "<link "@) && contains(trim(line), "fonts.g"@)
}

/// The page's title: the last title line's, or `Chaos` when there is none.
pub open spec fn fragment_title(ls: Seq<Seq<char>>) -> Seq<char>
    decreases ls.len(),
{
    if ls.len() == 0 {
        "Chaos"@
    } else {
        match title_in(ls.last()) {
            Some(t) => t,
            None => fragment_title(ls.drop_last()),
        }
    }
}

pub open spec fn kept_lines(ls: Seq<Seq<char>>) -> Seq<Seq<char>> {
    ls.filter(|l: Seq<char>| !dropped(l))
}

/// The title, and the body with its title and font links gone.
pub open spec fn split_fragment_spec(body: Seq<char>) -> (Seq<char>, Seq<char>) {
    (fragment_title(lines(body)), trim_start(join(kept_lines(lines(body)), seq!['\n'])))
}

/// Pull the `<title>` out of a fragment and drop its `<link>`s to the font
/// service. Done by line, which is what the input is: single-line tags at the
/// top of the file, then a `<style>` block.
pub fn split_fragment(body: &str) -> (r: (String, String))
    ensures
        (r.0@, r.1@) == split_fragment_spec(body@),
{
    let cs = chars_of(body);
    let ls = split_lines(cs.as_slice());
    let ghost lv = views(ls@);
    let mut title = chars_of("Chaos");
    let mut kept: Vec<Vec<char>> = Vec::new();
    let open_len = chars_of("<title>").len();
    let close_len = chars_of("</title>").len();
    let mut i: usize = 0;
    while i < ls.len()
        invariant
            i <= ls.len(),
            lv == views(ls@),
            lv == lines(body@),
            open_len == "<title>"@.len(),
            close_len == "</title>"@.len(),
            title@ == fragment_title(lv.take(i as int)),
            views(kept@) == kept_lines(lv.take(i as int)),
        decreases ls.len() - i,
    {
        proof {
            reveal_with_fuel(Seq::<_>::filter, 1);
            assert(lv.take(i + 1).drop_last() == lv.take(i as int));
            assert(lv.take(i + 1).last() == lv[i as int]);
            assert(lv[i as int] == ls@[i as int]@);
        }
        let t = trimmed(ls[i].as_slice());
        let mut is_title = false;
        if has_prefix(t.as_slice(), "<title>") {
            let rest = sub_chars(t.as_slice(), open_len, t.len());
            assert(rest@ == t@.skip(open_len as int));
            if has_suffix(rest.as_slice(), "</title>") {
                title = sub_chars(t.as_slice(), open_len, t.len() - close_len);
                is_title = true;
            }
        }
        if !is_title {
            let link = has_prefix(t.as_slice(), "<link ") && has_infix(t.as_slice(), "fonts.g");
            if !link {
                kept.push(ls[i].clone());
                assert(views(kept@) =~= kept_lines(lv.take(i as int)).push(lv[i as int]));
            }
        }
        assert(views(kept@) =~= kept_lines(lv.take(i + 1)));
        i = i + 1;
    }
    assert(lv.take(ls.len() as int) == lv);
    let joined = join_lines(&kept);
    let from = skip_white(joined.as_slice());
    let rest = sub_chars(joined.as_slice(), from, joined.len());
    assert(rest@ == joined@.skip(from as int));
    (string_of(title.as_slice()), string_of(rest.as_slice()))
}

/// What `js_string` writes for one character: the JSON escapes, plus `<`,
/// `>` and `&` as `\u00XY` so the literal cannot close a `<script>`.
pub open spec fn js_char(c: char) -> Seq<char> {
    if c == '"' {
        seq!['\\', '"']
    } else if c == '\\' {
        seq!['\\', '\\']
    } else if c == '<' || c == '>' || c == '&' {
        u_escape(c)
    } else if c == '\n' {
        seq!['\\', 'n']
    } else if c == '\r' {
        seq!['\\', 'r']
    } else if (c as u32) < 0x20 {
        u_escape(c)
    } else {
        seq![c]
    }
}

/// The escaped characters between the quotes of `js_string`.
pub open spec fn js_body(s: Seq<char>) -> Seq<char>
    decreases s.len(),
{
    if s.len() == 0 {
        Seq::empty()
    } else {
        js_char(s[0]) + js_body(s.drop_first())
    }
}

/// A JSON string literal, safe to paste inside a `<script>` element.
pub open spec fn js_string_spec(s: Seq<char>) -> Seq<char> {
    seq!['"'] + js_body(s) + seq!['"']
}

proof fn lemma_js_body_push(s: Seq<char>, c: char)
    ensures
        js_body(s.push(c)) == js_body(s) + js_char(c),
    decreases s.len(),
{
    if s.len() == 0 {
        assert(s.push(c).drop_first() =~= Seq::<char>::empty());
        assert(js_body(Seq::<char>::empty()) == Seq::<char>::empty());
        assert(js_body(s.push(c)) =~= js_char(c));
    } else {
        lemma_js_body_push(s.drop_first(), c);
        assert(s.push(c).drop_first() =~= s.drop_first().push(c));
        assert(js_body(s.push(c)) =~= js_body(s) + js_char(c));
    }
}

/// A character that cannot end or disturb the script element it sits in:
/// no `<`, `>` or `&`, and no control character (CR and LF among them).
pub open spec fn script_safe(c: char) -> bool {
    c != '<' && c != '>' && c != '&' && c as u32 >= 0x20
}

proof fn lemma_hex_lower_safe(d: nat)
    requires
        d < 16,
    ensures
        script_safe(hex_lower(d)),
{
    if d < 10 {
        assert(hex_lower(d) as u32 == d + 48);
    } else {
        assert(hex_lower(d) as u32 == d + 87);
    }
}

proof fn lemma_u_escape_safe(c: char)
    requires
        (c as u32) < 0x100,
    ensures
        forall|i: int| 0 <= i < u_escape(c).len() ==> script_safe(#[trigger] u_escape(c)[i]),
{
    let u = c as u32;
    lemma_hex_lower_safe((u / 16) as nat);
    lemma_hex_lower_safe((u % 16) as nat);
    let e = u_escape(c);
    assert forall|i: int| 0 <= i < e.len() implies script_safe(#[trigger] e[i]) by {
        if i == 4 {
            assert(e[4] == hex_lower((u / 16) as nat));
        } else if i == 5 {
            assert(e[5] == hex_lower((u % 16) as nat));
        }
    }
}

proof fn lemma_js_char_reads_back(c: char, rest: Seq<char>)
    ensures
        json_unescape(js_char(c) + rest) == prepend(c, json_unescape(rest)),
        forall|i: int| 0 <= i < js_char(c).len() ==> script_safe(#[trigger] js_char(c)[i]),
{
    if c == '"' {
        lemma_unescape_short('"', rest);
    } else if c == '\\' {
        lemma_unescape_short('\\', rest);
    } else if c == '<' || c == '>' || c == '&' {
        lemma_unescape_u(c, rest);
        lemma_u_escape_safe(c);
    } else if c == '\n' {
        lemma_unescape_short('n', rest);
    } else if c == '\r' {
        lemma_unescape_short('r', rest);
    } else if (c as u32) < 0x20 {
        lemma_unescape_u(c, rest);
        lemma_u_escape_safe(c);
    } else {
        lemma_unescape_plain(c, rest);
    }
}

/// Whatever the host hands in as an endpoint, the literal reads back as that
/// endpoint and holds no `<`, `>`, `&` or control character (no CR, no LF),
/// so it cannot end the script element it sits in.
pub proof fn lemma_js_string_is_contained(s: Seq<char>)
    ensures
        json_unescape(js_body(s)) == Some(s),
        forall|i: int| 0 <= i < js_body(s).len() ==> script_safe(#[trigger] js_body(s)[i]),
        !js_body(s).contains('<'),
    decreases s.len(),
{
    if s.len() == 0 {
        assert(js_body(s) =~= Seq::<char>::empty());
    } else {
        lemma_js_string_is_contained(s.drop_first());
        lemma_js_char_reads_back(s[0], js_body(s.drop_first()));
        assert(seq![s[0]] + s.drop_first() =~= s);
        let b = js_body(s);
        let e = js_char(s[0]);
        let r = js_body(s.drop_first());
        assert(b == e + r);
        assert forall|i: int| 0 <= i < b.len() implies script_safe(#[trigger] b[i]) by {
            if i < e.len() {
                assert(e[i] == b[i]);
            } else {
                assert(r[i - e.len()] == b[i]);
            }
        }
        assert forall|i: int| 0 <= i < b.len() implies b[i] != '<' by {
            assert(script_safe(b[i]));
        }
    }
}

fn push_u_escape(out: &mut String, c: char)
    requires
        (c as u32) < 0x100,
    ensures
        final(out)@ == old(out)@ + u_escape(c),
{
    proof {
        reveal_strlit("\\u00");
    }
    push_str(out, "\\u00");
    push_hex(out, (c as u32) / 16);
    push_hex(out, (c as u32) % 16);
    assert(final(out)@ =~= old(out)@ + u_escape(c));
}

/// A JSON string literal, safe to paste inside a `<script>` element.
///
/// `<` is escaped as well as the JSON set: a payload containing `</script>`
/// would otherwise close the element early, and the endpoint is a value the
/// host application supplies rather than a constant.
pub fn js_string(s: &str) -> (out: String)
    ensures
        out@ == js_string_spec(s@),
{
    let cs = chars_of(s);
    let mut out = String::new();
    push_char(&mut out, '"');
    let mut i: usize = 0;
    while i < cs.len()
        invariant
            i <= cs.len(),
            cs@ == s@,
            out@ == seq!['"'] + js_body(cs@.take(i as int)),
        decreases cs.len() - i,
    {
        let c = cs[i];
        let ghost before = out@;
        proof {
            reveal_strlit("\\\"");
            reveal_strlit("\\\\");
            reveal_strlit("\\n");
            reveal_strlit("\\r");
        }
        if c == '"' {
            push_str(&mut out, "\\\"");
        } else if c == '\\' {
            push_str(&mut out, "\\\\");
        } else if c == '<' || c == '>' || c == '&' {
            push_u_escape(&mut out, c);
        } else if c == '\n' {
            push_str(&mut out, "\\n");
        } else if c == '\r' {
            push_str(&mut out, "\\r");
        } else if (c as u32) < 0x20 {
            push_u_escape(&mut out, c);
        } else {
            push_char(&mut out, c);
        }
        proof {
            lemma_js_body_push(cs@.take(i as int), c);
            assert(cs@.take(i + 1) == cs@.take(i as int).push(c));
            assert(out@ =~= before + js_char(c));
        }
        i = i + 1;
    }
    push_char(&mut out, '"');
    assert(cs@.take(cs.len() as int) == s@);
    out
}

pub const PAGE_OPEN: &'static str = "<!doctype html>\n<html lang=\"en\"";

pub const PAGE_HEAD: &'static str = ">\n<head>\n<meta charset=\"utf-8\">\n<meta name=\"viewport\" content=\"width=device-width, initial-scale=1, viewport-fit=cover\">\n<meta name=\"color-scheme\" content=\"light dark\">\n<title>";

pub const PAGE_STYLE: &'static str = "</title>\n<style>\n";

pub const PAGE_STYLE_END: &'static str = "</style>\n";

pub const PAGE_BODY: &'static str = "</head>\n<body>\n";

pub const PAGE_END: &'static str = "\n</body>\n</html>\n";

/// The theme attribute stamped on `<html>`: only `dark` and `light` are, so a
/// typo or a hostile value cannot inject an attribute.
pub open spec fn theme_attr(theme: Option<Seq<char>>) -> Seq<char> {
    match theme {
        Some(t) => if t == "dark"@ || t == "light"@ {
            " data-theme=\""@ + t + "\""@
        } else {
            Seq::empty()
        },
        None => Seq::empty(),
    }
}

/// The script that hands the page its route.
pub open spec fn endpoint_script(endpoint: Option<Seq<char>>) -> Seq<char> {
    match endpoint {
        Some(u) => "<script>window.CHAOS_ENDPOINT="@ + js_string_spec(u) + ";</script>\n"@,
        None => Seq::empty(),
    }
}

/// The whole document built from one fragment.
pub open spec fn document(
    fragment: Seq<char>,
    fonts: Seq<char>,
    endpoint: Option<Seq<char>>,
    theme: Option<Seq<char>>,
) -> Seq<char> {
    let (title, rest) = split_fragment_spec(fragment);
    PAGE_OPEN@ + theme_attr(theme) + PAGE_HEAD@ + title + PAGE_STYLE@ + fonts + PAGE_STYLE_END@
        + endpoint_script(endpoint) + PAGE_BODY@ + rest + PAGE_END@
}

/// Both themes the app knows are stamped on `<html>`: with `dark` or `light`
/// the document is the unthemed one with ` data-theme="dark"` (or `light`)
/// right after `<html lang="en"`, and any other theme leaves the document
/// exactly as with none.
pub proof fn lemma_theme_is_stamped(fragment: Seq<char>, fonts: Seq<char>, endpoint: Option<Seq<char>>, t: Seq<char>)
    ensures
        t == "dark"@ || t == "light"@ ==> document(fragment, fonts, endpoint, Some(t)) == "<!doctype html>\n<html lang=\"en\" data-theme=\""@
            + t + "\""@ + document(fragment, fonts, endpoint, None).skip(PAGE_OPEN@.len() as int),
        t != "dark"@ && t != "light"@ ==> document(fragment, fonts, endpoint, Some(t)) == document(
            fragment,
            fonts,
            endpoint,
            None,
        ),
{
    reveal_strlit("<!doctype html>\n<html lang=\"en\"");
    reveal_strlit("<!doctype html>\n<html lang=\"en\" data-theme=\"");
    reveal_strlit(" data-theme=\"");
    let unthemed = document(fragment, fonts, endpoint, None);
    let (title, rest) = split_fragment_spec(fragment);
    let tail = PAGE_HEAD@ + title + PAGE_STYLE@ + fonts + PAGE_STYLE_END@ + endpoint_script(endpoint)
        + PAGE_BODY@ + rest + PAGE_END@;
    assert(theme_attr(None) =~= Seq::<char>::empty());
    assert(unthemed =~= PAGE_OPEN@ + tail);
    assert(unthemed.skip(PAGE_OPEN@.len() as int) =~= tail);
    assert("<!doctype html>\n<html lang=\"en\" data-theme=\""@ =~= PAGE_OPEN@ + " data-theme=\""@);
    if t == "dark"@ || t == "light"@ {
        assert(document(fragment, fonts, endpoint, Some(t)) =~= PAGE_OPEN@ + (" data-theme=\""@ + t + "\""@) + tail);
    } else {
        assert(document(fragment, fonts, endpoint, Some(t)) =~= PAGE_OPEN@ + tail);
    }
}

pub open spec fn fragment_of(which: Page, src: Sources) -> Seq<char> {
    match which {
        Page::Mark => src.mark@,
        Page::Scry => src.scry@,
    }
}

/// Build a complete, self-contained HTML document for one of the two pages.
pub fn page(which: Page, host: Host<'_>, src: Sources<'_>) -> (r: String)
    ensures
        r@ == document(
            fragment_of(which, src),
            src.fonts@,
            opt_str_view(host.endpoint),
            opt_str_view(host.theme),
        ),
{
    let body = match which {
        Page::Mark => src.mark,
        Page::Scry => src.scry,
    };
    let (title, rest) = split_fragment(body);
    let mut out = String::new();
    push_str(&mut out, PAGE_OPEN);
    match host.theme {
        Some(t) => {
            if str_eq(t, "dark") || str_eq(t, "light") {
                push_str(&mut out, " data-theme=\"");
                push_str(&mut out, t);
                push_str(&mut out, "\"");
            }
        },
        None => {},
    }
    push_str(&mut out, PAGE_HEAD);
    push_str(&mut out, title.as_str());
    push_str(&mut out, PAGE_STYLE);
    push_str(&mut out, src.fonts);
    push_str(&mut out, PAGE_STYLE_END);
    match host.endpoint {
        Some(url) => {
            push_str(&mut out, "<script>window.CHAOS_ENDPOINT=");
            let lit = js_string(url);
            push_str(&mut out, lit.as_str());
            push_str(&mut out, ";</script>\n");
        },
        None => {},
    }
    push_str(&mut out, PAGE_BODY);
    push_str(&mut out, rest.as_str());
    push_str(&mut out, PAGE_END);
    assert(out@ =~= document(
        fragment_of(which, src),
        src.fonts@,
        opt_str_view(host.endpoint),
        opt_str_view(host.theme),
    ));
    out
}

/// The mark: [`page`] for [`Page::Mark`].
pub fn mark(host: Host<'_>, src: Sources<'_>) -> (r: String)
    ensures
        r@ == document(src.mark@, src.fonts@, opt_str_view(host.endpoint), opt_str_view(host.theme)),
{
    page(Page::Mark, host, src)
}

/// The scrying circle: [`page`] for [`Page::Scry`].
pub fn scry(host: Host<'_>, src: Sources<'_>) -> (r: String)
    ensures
        r@ == document(src.scry@, src.fonts@, opt_str_view(host.endpoint), opt_str_view(host.theme)),
{
    page(Page::Scry, host, src)
}

} // verus!
