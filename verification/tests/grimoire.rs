use lib::grimoire::{js_string, mark, page, scry, split_fragment, Host, Page, Sources};

const MARK_FRAGMENT: &str = "<title>Chaos \u{2014} the mark</title>
<link rel=\"preconnect\" href=\"https://fonts.googleapis.com\">
<link href=\"https://fonts.googleapis.com/css2?family=Cinzel\" rel=\"stylesheet\">
<style>
.book { font-family:'Cinzel'; }
</style>
<a id=\"where\" href=\"https://github.com/aturzone/Chaos\">where the code leads</a>
<canvas id=\"sigil\"></canvas>
<script>
function resolveEndpoint() { return window.CHAOS_ENDPOINT || location.origin; }
window.__grimoire = { resolveEndpoint };
</script>";

const SCRY_FRAGMENT: &str = "<title>Chaos \u{2014} scry</title>
<link href=\"https://fonts.gstatic.com\" rel=\"preconnect\">
<video id=\"eye\" playsinline></video>
<script>
navigator.mediaDevices && navigator.mediaDevices.getUserMedia({ video: true });
window.__scry = { ready: true };
</script>";

const FONTS: &str = "@font-face{font-family:'Cinzel';src:url(data:font/woff2;base64,d09GMgABAAAA)}
@font-face{font-family:'IBM Plex Mono';src:url(data:font/woff2;base64,d09GMgABAAAB)}
@font-face{font-family:'UnifrakturMaguntia';src:url(data:font/woff2;base64,d09GMgABAAAC)}
";

fn sources() -> Sources<'static> {
    Sources { mark: MARK_FRAGMENT, scry: SCRY_FRAGMENT, fonts: FONTS }
}

#[test]
fn no_page_loads_anything_from_the_network() {
    for which in [Page::Mark, Page::Scry] {
        let html = page(which, Host::default(), sources());
        for needle in [
            "<link ",
            "<iframe",
            "src=\"http",
            "src='http",
            "src=\"//",
            "url(http",
            "url('http",
            "url(\"http",
            "@import",
            "fetch(\"http",
            "fonts.googleapis.com",
            "fonts.gstatic.com",
        ] {
            assert!(!html.contains(needle), "{which:?} would load something: found {needle:?}");
        }
    }
}

#[test]
fn the_only_link_out_is_where_the_code_leads() {
    let m = page(Page::Mark, Host::default(), sources());
    assert_eq!(m.matches("href=\"http").count(), 1);
    assert!(m.contains("href=\"https://github.com/aturzone/Chaos\""));
    assert_eq!(page(Page::Scry, Host::default(), sources()).matches("href=\"http").count(), 0);
}

#[test]
fn the_fonts_are_actually_in_there() {
    let html = page(Page::Mark, Host::default(), sources());
    for family in ["Cinzel", "IBM Plex Mono", "UnifrakturMaguntia"] {
        assert!(html.contains(&format!("font-family:'{family}'")), "{family} is not embedded");
    }
    assert!(html.contains("data:font/woff2;base64,"));
}

#[test]
fn a_document_not_a_fragment() {
    for which in [Page::Mark, Page::Scry] {
        let html = page(which, Host::default(), sources());
        assert!(html.starts_with("<!doctype html>"));
        assert!(html.contains("<head>") && html.contains("<body>"));
        assert!(html.trim_end().ends_with("</html>"));
        assert!(!html.contains("<title>Chaos</title>"), "{which:?} lost its title");
        assert_eq!(html.matches("<title>").count(), 1);
    }
}

#[test]
fn the_route_is_pushed_in() {
    let html = page(
        Page::Mark,
        Host { endpoint: Some("http://192.168.1.20:8080"), theme: Some("dark") },
        sources(),
    );
    assert!(html.contains("window.CHAOS_ENDPOINT=\"http://192.168.1.20:8080\";"));
    assert!(html.contains("<html lang=\"en\" data-theme=\"dark\">"));
}

#[test]
fn an_endpoint_cannot_break_out_of_its_script() {
    let html = page(
        Page::Mark,
        Host { endpoint: Some("http://x/</script><script>alert(1)</script>"), theme: None },
        sources(),
    );
    assert!(!html.contains("<script>alert(1)"));
    assert!(html.contains("\\u003c/script\\u003e"));
}

#[test]
fn only_the_two_themes_are_stamped() {
    let html = page(
        Page::Scry,
        Host { endpoint: None, theme: Some("\" onload=\"alert(1)") },
        sources(),
    );
    assert!(html.contains("<html lang=\"en\">"));
    assert!(!html.contains("onload"));
}

#[test]
fn the_pages_are_the_ones_we_think_they_are() {
    let m = mark(Host::default(), sources());
    let s = scry(Host::default(), sources());
    assert!(m.contains("resolveEndpoint"));
    assert!(m.contains("window.__grimoire"));
    assert!(s.contains("getUserMedia"));
    assert!(s.contains("window.__scry"));
}

#[test]
fn a_fragment_gives_up_its_title_and_font_links() {
    let (title, rest) = split_fragment("  \n<title>T</title>\n<link href=\"x.fonts.gstatic\">\nbody\n");
    assert_eq!(title, "T");
    assert_eq!(rest, "body");
    let (title, rest) = split_fragment("no title here");
    assert_eq!(title, "Chaos");
    assert_eq!(rest, "no title here");
}

#[test]
fn a_js_string_escapes_what_could_end_a_script() {
    assert_eq!(js_string("a\"b\\c"), "\"a\\\"b\\\\c\"");
    assert_eq!(js_string("<&>"), "\"\\u003c\\u0026\\u003e\"");
    assert_eq!(js_string("x\ny\rz\u{1}"), "\"x\\ny\\rz\\u0001\"");
}
