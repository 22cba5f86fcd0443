//! The decisions `chaos-run` makes about text: the escapes a prompt may hold,
//! how far two token sequences agree, and which flags it declines.
use vstd::prelude::*;
use crate::text::{
    chars_of, contains, ends_with, has_infix, has_prefix, has_suffix, lower, lowered, push_char,
    occurs_at, starts_with, str_eq, trim,
};
use crate::json::hex_value;

verus! {

/// The character a backslash escape `\e` stands for, for the escapes that
/// are one letter long.
pub open spec fn simple_unescape(e: char) -> Option<char> {
    if e == 'n' {
        Some('\n')
    } else if e == 't' {
        Some('\t')
    } else if e == 'r' {
        Some('\r')
    } else if e == '0' {
        Some('\0')
    } else if e == '\'' {
        Some('\'')
    } else if e == '"' {
        Some('"')
    } else if e == '\\' {
        Some('\\')
    } else {
        None
    }
}

/// The byte that the two characters after `\x` spell: exactly two
/// hexadecimal digits, and nothing else.
pub open spec fn x_byte(c1: char, c2: char) -> Option<nat> {
    match (hex_value(c1), hex_value(c2)) {
        (Some(h), Some(l)) => Some(16 * h + l),
        _ => None,
    }
}

/// What a prompt written with backslash escapes means.
///
/// `\n \t \r \0 \' \" \\` and `\xHH` are read; an unknown escape, or a `\x`
/// without its two digits, is kept exactly as written, and so is a trailing
/// backslash.
pub open spec fn unescape_spec(s: Seq<char>) -> Seq<char>
    decreases s.len(),
{
    if s.len() == 0 {
        Seq::empty()
    } else if s[0] != '\\' {
        seq![s[0]] + unescape_spec(s.skip(1))
    } else if s.len() == 1 {
        seq!['\\']
    } else if s[1] == 'x' {
        if s.len() >= 4 && x_byte(s[2], s[3]) is Some {
            seq![(x_byte(s[2], s[3])->0 as u32) as char] + unescape_spec(s.skip(4))
        } else {
            seq!['\\', 'x'] + unescape_spec(s.skip(2))
        }
    } else {
        match simple_unescape(s[1]) {
            Some(c) => seq![c] + unescape_spec(s.skip(2)),
            None => seq!['\\', s[1]] + unescape_spec(s.skip(2)),
        }
    }
}

/// The value of a hexadecimal digit.
fn hex_digit(c: char) -> (r: Option<u32>)
    ensures
        match hex_value(c) {
            Some(v) => r == Some(v as u32),
            None => r is None,
        },
{
    if '0' <= c && c <= '9' {
        Some((c as u32) - 48)
    } else if 'a' <= c && c <= 'f' {
        Some((c as u32) - 87)
    } else if 'A' <= c && c <= 'F' {
        Some((c as u32) - 55)
    } else {
        None
    }
}

fn x_byte_of(c1: char, c2: char) -> (r: Option<u8>)
    ensures
        match x_byte(c1, c2) {
            Some(v) => r == Some(v as u8) && v < 256,
            None => r is None,
        },
{
    match (hex_digit(c1), hex_digit(c2)) {
        (Some(h), Some(l)) => Some((16 * h + l) as u8),
        _ => None,
    }
}

/// Interpret the backslash escapes a prompt on a command line may hold.
///
/// `-p "Line one\nLine two"` is the ordinary way to write a two-line prompt;
/// a Windows path in a prompt survives, because unknown escapes stay.
pub fn unescape(text: &str) -> (out: String)
    ensures
        out@ == unescape_spec(text@),
{
    let cs = chars_of(text);
    let mut out = String::new();
    let ghost s = cs@;
    let mut i: usize = 0;
    assert(s.skip(0) =~= s);
    assert(out@ + unescape_spec(s.skip(0)) =~= unescape_spec(s));
    while i < cs.len()
        invariant
            s == cs@,
            i <= cs.len(),
            out@ + unescape_spec(s.skip(i as int)) == unescape_spec(s),
        decreases cs.len() - i,
    {
        let ghost rest = s.skip(i as int);
        let c = cs[i];
        assert(rest[0] == c);
        if c != '\\' {
            assert(rest.skip(1) == s.skip(i + 1));
            push_char(&mut out, c);
            i = i + 1;
            assert(out@ + unescape_spec(s.skip(i as int)) =~= unescape_spec(s));
        } else if i + 1 == cs.len() {
            assert(rest.len() == 1);
            push_char(&mut out, '\\');
            i = i + 1;
            assert(s.skip(i as int) =~= Seq::<char>::empty());
            assert(out@ + unescape_spec(s.skip(i as int)) =~= unescape_spec(s));
        } else {
            let e = cs[i + 1];
            assert(rest[1] == e);
            assert(rest.skip(2) == s.skip(i + 2));
            if e == 'x' {
                let mut read = false;
                if cs.len() - i > 3 {
                    assert(rest[2] == cs@[i + 2] && rest[3] == cs@[i + 3]);
                    assert(rest.skip(4) == s.skip(i + 4));
                    match x_byte_of(cs[i + 2], cs[i + 3]) {
                        Some(b) => {
                            push_char(&mut out, b as char);
                            i = i + 4;
                            read = true;
                        },
                        None => {},
                    }
                }
                if !read {
                    push_char(&mut out, '\\');
                    push_char(&mut out, 'x');
                    i = i + 2;
                }
            } else {
                let simple = if e == 'n' {
                    Some('\n')
                } else if e == 't' {
                    Some('\t')
                } else if e == 'r' {
                    Some('\r')
                } else if e == '0' {
                    Some('\0')
                } else if e == '\'' {
                    Some('\'')
                } else if e == '"' {
                    Some('"')
                } else if e == '\\' {
                    Some('\\')
                } else {
                    None
                };
                assert(simple == simple_unescape(e));
                match simple {
                    Some(d) => push_char(&mut out, d),
                    None => {
                        push_char(&mut out, '\\');
                        push_char(&mut out, e);
                    },
                }
                i = i + 2;
            }
            assert(out@ + unescape_spec(s.skip(i as int)) =~= unescape_spec(s));
        }
    }
    assert(s.skip(cs.len() as int) =~= Seq::<char>::empty());
    assert(out@ =~= unescape_spec(s));
    out
}

/// Text with no backslash in it means exactly what it says.
pub proof fn lemma_plain_text_is_unchanged(s: Seq<char>)
    requires
        !s.contains('\\'),
    ensures
        unescape_spec(s) == s,
    decreases s.len(),
{
    if s.len() > 0 {
        assert(!s.skip(1).contains('\\')) by {
            if s.skip(1).contains('\\') {
                let k = choose|k: int| 0 <= k < s.skip(1).len() && s.skip(1)[k] == '\\';
                assert(s[k + 1] == '\\');
            }
        }
        assert(s[0] != '\\') by {
            if s[0] == '\\' {
                assert(s.contains('\\'));
            }
        }
        lemma_plain_text_is_unchanged(s.skip(1));
        assert(seq![s[0]] + s.skip(1) =~= s);
    }
}

/// How many leading tokens two sequences share.
pub fn common_prefix(a: &[u32], b: &[u32]) -> (r: usize)
    ensures
        r <= a@.len(),
        r <= b@.len(),
        a@.take(r as int) == b@.take(r as int),
        r < a@.len() && r < b@.len() ==> a@[r as int] != b@[r as int],
{
    let mut i: usize = 0;
    while i < a.len() && i < b.len() && a[i] == b[i]
        invariant
            i <= a@.len(),
            i <= b@.len(),
            a@.take(i as int) == b@.take(i as int),
        decreases a.len() - i,
    {
        assert(a@.take(i + 1) =~= a@.take(i as int).push(a@[i as int]));
        assert(b@.take(i + 1) =~= b@.take(i as int).push(b@[i as int]));
        i = i + 1;
    }
    i
}

/// How many positions of a saved prompt cache a new prompt can reuse: the
/// tokens the two prompts share, up to the first that differs, and never
/// the prompt's last token, whose forward pass gives the logits that start
/// generation.
pub fn reused_prefix(saved: &[u32], tokens: &[u32]) -> (r: usize)
    ensures
        tokens@.len() == 0 ==> r == 0,
        tokens@.len() > 0 ==> {
            &&& r < tokens@.len()
            &&& r <= saved@.len()
            &&& saved@.take(r as int) == tokens@.take(r as int)
            &&& r + 1 < tokens@.len() && r < saved@.len() ==> saved@[r as int] != tokens@[r as int]
        },
{
    let shared = common_prefix(saved, tokens);
    let last = tokens.len().saturating_sub(1);
    if shared < last {
        shared
    } else {
        proof {
            if tokens@.len() > 0 {
                assert(saved@.take(last as int) =~= saved@.take(shared as int).take(last as int));
                assert(tokens@.take(last as int) =~= tokens@.take(shared as int).take(last as int));
            }
        }
        last
    }
}

/// Whether a template's render error is it refusing a system role: the
/// message, compared without regard to ASCII case, names the system and
/// either says "not supported" or mentions a role.
pub open spec fn system_rejection_spec(msg: Seq<char>) -> bool {
    let m = lower(msg);
    contains(m, seq!['s', 'y', 's', 't', 'e', 'm']) && (contains(
        m,
        seq!['n', 'o', 't', ' ', 's', 'u', 'p', 'p', 'o', 'r', 't', 'e', 'd'],
    ) || contains(m, seq!['r', 'o', 'l', 'e']))
}

/// Whether a render error is a template rejecting a system role, rather than
/// any other failure. Kept narrow: retrying every failed render would turn
/// one honest error into two.
pub fn mentions_system_rejection(msg: &str) -> (r: bool)
    ensures
        r == system_rejection_spec(msg@),
{
    proof {
        reveal_strlit("system");
        reveal_strlit("not supported");
        reveal_strlit("role");
        assert("system"@ =~= seq!['s', 'y', 's', 't', 'e', 'm']);
        assert("not supported"@ =~= seq!['n', 'o', 't', ' ', 's', 'u', 'p', 'p', 'o', 'r', 't', 'e', 'd']);
        assert("role"@ =~= seq!['r', 'o', 'l', 'e']);
    }
    let cs = chars_of(msg);
    let m = lowered(cs.as_slice());
    let m = m.as_slice();
    has_infix(m, "system") && (has_infix(m, "not supported") || has_infix(m, "role"))
}

/// Where a stream of tokens is, relative to a `<think>` block.
#[derive(Clone, Copy, PartialEq, Eq, Debug, Structural)]
pub enum ThinkState {
    /// Before any `<think>`; ordinary output.
    Before,
    Inside,
    /// Past `</think>`; ordinary output again.
    After,
}

/// How many bytes a character takes in UTF-8.
pub open spec fn utf8_len(c: char) -> nat {
    let u = c as u32;
    if u < 0x80 {
        1
    } else if u < 0x800 {
        2
    } else if u < 0x10000 {
        3
    } else {
        4
    }
}

/// How many bytes text takes in UTF-8.
pub open spec fn byte_len(s: Seq<char>) -> nat
    decreases s.len(),
{
    if s.len() == 0 {
        0
    } else {
        utf8_len(s[0]) + byte_len(s.skip(1))
    }
}

/// `j` starts the shortest tail of `s`, in whole characters, that holds at
/// least 32 bytes (or all of `s`, if nothing that short does).
pub open spec fn tail_ok(s: Seq<char>, j: int) -> bool {
    &&& 0 <= j <= s.len()
    &&& (j == 0 || byte_len(s.skip(j)) >= 32)
    &&& forall|i: int| j < i <= s.len() ==> #[trigger] byte_len(s.skip(i)) < 32
}

pub open spec fn tail_cut(s: Seq<char>) -> int {
    choose|j: int| tail_ok(s, j)
}

/// What is kept of the text seen so far: once it passes 64 bytes, only the
/// shortest tail of at least 32 bytes, since only a tail can hold a partial
/// tag.
pub open spec fn held(s: Seq<char>) -> Seq<char> {
    if byte_len(s) > 64 {
        s.skip(tail_cut(s))
    } else {
        s
    }
}

pub open spec fn open_tag() -> Seq<char> {
    seq!['<', 't', 'h', 'i', 'n', 'k', '>']
}

pub open spec fn close_tag() -> Seq<char> {
    seq!['<', '/', 't', 'h', 'i', 'n', 'k', '>']
}

/// One token's text fed to a tracker in `state`, having held `seen` and
/// counted `inside` tokens in the block: the new state, the new held text,
/// the new count, and whether the token is shown.
pub open spec fn accept_spec(state: ThinkState, seen: Seq<char>, inside: int, text: Seq<char>, strip: bool) -> (
    ThinkState,
    Seq<char>,
    int,
    bool,
) {
    let s = held(seen + text);
    match state {
        ThinkState::Before => if contains(s, open_tag()) {
            (ThinkState::Inside, Seq::empty(), 0, !strip)
        } else {
            (ThinkState::Before, s, inside, true)
        },
        ThinkState::Inside => if contains(s, close_tag()) {
            (ThinkState::After, Seq::empty(), inside + 1, !strip)
        } else {
            (ThinkState::Inside, s, inside + 1, !strip)
        },
        ThinkState::After => (ThinkState::After, s, inside, true),
    }
}

/// How far along the block a state is.
pub open spec fn stage(s: ThinkState) -> int {
    match s {
        ThinkState::Before => 0,
        ThinkState::Inside => 1,
        ThinkState::After => 2,
    }
}

/// Follows `<think>` and `</think>` across token boundaries, on the text
/// rather than on token ids: the tags are ordinary text in most vocabularies
/// and are split across tokens.
pub struct ThinkTracker {
    pub state: ThinkState,
    /// The tail of the text seen since the last tag.
    pub seen: Vec<char>,
    /// Tokens consumed since the block opened, for the budget.
    pub inside_tokens: i64,
}

fn char_bytes(c: char) -> (r: u64)
    ensures
        r == utf8_len(c),
{
    let u = c as u32;
    if u < 0x80 {
        1
    } else if u < 0x800 {
        2
    } else if u < 0x10000 {
        3
    } else {
        4
    }
}

proof fn lemma_byte_len_step(s: Seq<char>, k: int)
    requires
        0 <= k < s.len(),
    ensures
        byte_len(s.skip(k)) == utf8_len(s[k]) + byte_len(s.skip(k + 1)),
{
    assert(s.skip(k)[0] == s[k]);
    assert(s.skip(k).skip(1) =~= s.skip(k + 1));
}

proof fn lemma_byte_len_shrinks(s: Seq<char>, i: int, j: int)
    requires
        0 <= i <= j <= s.len(),
    ensures
        byte_len(s.skip(i)) >= byte_len(s.skip(j)),
    decreases j - i,
{
    if i < j {
        lemma_byte_len_step(s, i);
        lemma_byte_len_shrinks(s, i + 1, j);
    }
}

proof fn lemma_tail_unique(s: Seq<char>, j1: int, j2: int)
    requires
        tail_ok(s, j1),
        tail_ok(s, j2),
    ensures
        j1 == j2,
{
    if j1 < j2 {
        assert(byte_len(s.skip(j2)) < 32);
    } else if j2 < j1 {
        assert(byte_len(s.skip(j1)) < 32);
    }
}

/// What is held stays within 64 bytes.
proof fn lemma_held_is_short(s: Seq<char>)
    ensures
        byte_len(held(s)) <= 64,
{
    if byte_len(s) > 64 {
        let j = tail_cut(s);
        assert(tail_ok(s, j)) by {
            lemma_a_tail_exists(s);
        }
        if j == 0 {
            if s.len() > 0 {
                lemma_byte_len_step(s, 0);
                assert(byte_len(s.skip(1)) < 32);
            }
            assert(s.skip(0) =~= s);
        } else if j < s.len() {
            lemma_byte_len_step(s, j);
            assert(byte_len(s.skip(j + 1)) < 32);
        } else {
            assert(s.skip(j) =~= Seq::<char>::empty());
        }
    }
}

proof fn lemma_a_tail_from(s: Seq<char>, j: int)
    requires
        0 <= j <= s.len(),
        forall|i: int| j < i <= s.len() ==> #[trigger] byte_len(s.skip(i)) < 32,
    ensures
        tail_ok(s, tail_cut(s)),
    decreases j,
{
    if j == 0 || byte_len(s.skip(j)) >= 32 {
        assert(tail_ok(s, j));
    } else {
        lemma_a_tail_from(s, j - 1);
    }
}

proof fn lemma_a_tail_exists(s: Seq<char>)
    ensures
        tail_ok(s, tail_cut(s)),
{
    lemma_a_tail_from(s, s.len() as int);
}

/// The text `s` as held: trimmed to its tail once it passes 64 bytes.
fn hold(s: Vec<char>) -> (r: Vec<char>)
    ensures
        r@ == held(s@),
{
    let n = s.len();
    let mut k: usize = n;
    let mut acc: u64 = 0;
    assert(s@.skip(n as int) =~= Seq::<char>::empty());
    while k > 0 && acc <= 64
        invariant
            k <= n == s.len(),
            acc == byte_len(s@.skip(k as int)),
            acc <= 68,
        decreases k,
    {
        k = k - 1;
        proof {
            lemma_byte_len_step(s@, k as int);
        }
        acc = acc + char_bytes(s[k]);
    }
    proof {
        lemma_byte_len_shrinks(s@, 0, k as int);
        assert(s@.skip(0) =~= s@);
    }
    if acc <= 64 {
        return s;
    }
    let mut j: usize = n;
    let mut acc2: u64 = 0;
    while j > 0 && acc2 < 32
        invariant
            j <= n == s.len(),
            acc2 == byte_len(s@.skip(j as int)),
            acc2 <= 35,
            forall|i: int| j < i <= n ==> #[trigger] byte_len(s@.skip(i)) < 32,
        decreases j,
    {
        j = j - 1;
        proof {
            lemma_byte_len_step(s@, j as int);
        }
        acc2 = acc2 + char_bytes(s[j]);
    }
    proof {
        assert(tail_ok(s@, j as int));
        lemma_a_tail_exists(s@);
        lemma_tail_unique(s@, j as int, tail_cut(s@));
    }
    let mut out: Vec<char> = Vec::new();
    let mut i: usize = j;
    while i < n
        invariant
            j <= i <= n == s.len(),
            out@ == s@.subrange(j as int, i as int),
        decreases n - i,
    {
        out.push(s[i]);
        i = i + 1;
    }
    assert(out@ =~= s@.skip(j as int));
    out
}

impl ThinkTracker {
    pub fn new() -> (r: Self)
        ensures
            r.state == ThinkState::Before,
            r.seen@ == Seq::<char>::empty(),
            r.inside_tokens == 0,
    {
        ThinkTracker { state: ThinkState::Before, seen: Vec::new(), inside_tokens: 0 }
    }

    /// Feed one token's text. Returns whether it should be printed.
    pub fn accept(&mut self, text: &str, strip: bool) -> (r: bool)
        requires
            old(self).state == ThinkState::Inside ==> old(self).inside_tokens < i64::MAX,
        ensures
            ({
                let (st, sn, it, shown) = accept_spec(
                    old(self).state,
                    old(self).seen@,
                    old(self).inside_tokens as int,
                    text@,
                    strip,
                );
                &&& final(self).state == st
                &&& final(self).seen@ == sn
                &&& final(self).inside_tokens == it
                &&& r == shown
            }),
            byte_len(final(self).seen@) <= 64,
    {
        proof {
            reveal_strlit("<think>");
            reveal_strlit("</think>");
            assert("<think>"@ =~= open_tag());
            assert("</think>"@ =~= close_tag());
            lemma_held_is_short(old(self).seen@ + text@);
        }
        let mut all: Vec<char> = Vec::new();
        std::mem::swap(&mut all, &mut self.seen);
        let tc = chars_of(text);
        let mut i: usize = 0;
        let ghost start = all@;
        while i < tc.len()
            invariant
                i <= tc.len(),
                tc@ == text@,
                all@ == start + tc@.take(i as int),
            decreases tc.len() - i,
        {
            all.push(tc[i]);
            i = i + 1;
            assert(all@ =~= start + tc@.take(i as int));
        }
        assert(tc@.take(tc.len() as int) =~= tc@);
        let s = hold(all);
        match self.state {
            ThinkState::Before => {
                if has_infix(s.as_slice(), "<think>") {
                    self.state = ThinkState::Inside;
                    self.seen = Vec::new();
                    self.inside_tokens = 0;
                    !strip
                } else {
                    self.seen = s;
                    true
                }
            },
            ThinkState::Inside => {
                self.inside_tokens = self.inside_tokens + 1;
                if has_infix(s.as_slice(), "</think>") {
                    self.state = ThinkState::After;
                    self.seen = Vec::new();
                } else {
                    self.seen = s;
                }
                !strip
            },
            ThinkState::After => {
                self.seen = s;
                true
            },
        }
    }

    /// Whether a block with a budget of `budget` tokens has run past it. A
    /// negative budget is no limit.
    pub fn over_budget(&self, budget: i64) -> (r: bool)
        ensures
            r == (budget >= 0 && self.state == ThinkState::Inside && self.inside_tokens > budget),
    {
        budget >= 0 && self.state == ThinkState::Inside && self.inside_tokens > budget
    }
}

/// The block is passed through, never reopened: the state only moves
/// forward, and once past `</think>` every token is shown.
pub proof fn lemma_think_moves_forward(
    state: ThinkState,
    seen: Seq<char>,
    inside: int,
    text: Seq<char>,
    strip: bool,
)
    ensures
        stage(accept_spec(state, seen, inside, text, strip).0) >= stage(state),
        state == ThinkState::After ==> accept_spec(state, seen, inside, text, strip).0
            == ThinkState::After && accept_spec(state, seen, inside, text, strip).3,
{
}

/// Without stripping, every token is shown: the block stays in the output.
pub proof fn lemma_keeping_shows_everything(
    state: ThinkState,
    seen: Seq<char>,
    inside: int,
    text: Seq<char>,
)
    ensures
        accept_spec(state, seen, inside, text, false).3,
{
}

/// With stripping, a token is hidden exactly when it opens, continues or
/// closes the block.
pub proof fn lemma_stripping_hides_only_the_block(
    state: ThinkState,
    seen: Seq<char>,
    inside: int,
    text: Seq<char>,
)
    ensures
        !accept_spec(state, seen, inside, text, true).3 <==> (state == ThinkState::Inside
            || accept_spec(state, seen, inside, text, true).0 == ThinkState::Inside),
{
}

/// The tracker after taking each of `texts` in turn.
pub open spec fn accepts(state: ThinkState, seen: Seq<char>, inside: int, texts: Seq<Seq<char>>, strip: bool) -> (
    ThinkState,
    Seq<char>,
    int,
)
    decreases texts.len(),
{
    if texts.len() == 0 {
        (state, seen, inside)
    } else {
        let (st, sn, it, _) = accept_spec(state, seen, inside, texts[0], strip);
        accepts(st, sn, it, texts.skip(1), strip)
    }
}

/// What `over_budget` answers of a tracker in `state` having counted `inside`.
pub open spec fn past_budget(budget: i64, state: ThinkState, inside: int) -> bool {
    budget >= 0 && state == ThinkState::Inside && inside > budget
}

proof fn lemma_after_stays(seen: Seq<char>, inside: int, texts: Seq<Seq<char>>, strip: bool)
    ensures
        accepts(ThinkState::After, seen, inside, texts, strip).0 == ThinkState::After,
        accepts(ThinkState::After, seen, inside, texts, strip).2 == inside,
    decreases texts.len(),
{
    if texts.len() > 0 {
        let (st, sn, it, _) = accept_spec(ThinkState::After, seen, inside, texts[0], strip);
        lemma_after_stays(sn, it, texts.skip(1), strip);
    }
}

proof fn lemma_inside_counts(seen: Seq<char>, inside: int, texts: Seq<Seq<char>>, strip: bool)
    ensures
        accepts(ThinkState::Inside, seen, inside, texts, strip).0 != ThinkState::Before,
        accepts(ThinkState::Inside, seen, inside, texts, strip).0 == ThinkState::Inside
            ==> accepts(ThinkState::Inside, seen, inside, texts, strip).2 == inside + texts.len(),
    decreases texts.len(),
{
    if texts.len() > 0 {
        let (st, sn, it, _) = accept_spec(ThinkState::Inside, seen, inside, texts[0], strip);
        if st == ThinkState::Inside {
            lemma_inside_counts(sn, it, texts.skip(1), strip);
        } else {
            lemma_after_stays(sn, it, texts.skip(1), strip);
        }
    }
}

/// The texts of several tokens, one after another.
pub open spec fn texts_joined(texts: Seq<Seq<char>>) -> Seq<char>
    decreases texts.len(),
{
    if texts.len() == 0 {
        Seq::empty()
    } else {
        texts[0] + texts_joined(texts.skip(1))
    }
}

proof fn lemma_contains_in_tail(z: Seq<char>, k: int, p: Seq<char>)
    requires
        0 <= k <= z.len(),
        contains(z.skip(k), p),
    ensures
        contains(z, p),
{
    let i = choose|i: int| occurs_at(z.skip(k), p, i);
    assert(z.skip(k).subrange(i, i + p.len()) =~= z.subrange(i + k, i + k + p.len()));
    assert(occurs_at(z, p, i + k));
}

proof fn lemma_contains_in_head(x: Seq<char>, y: Seq<char>, p: Seq<char>)
    requires
        contains(x, p),
    ensures
        contains(x + y, p),
{
    let i = choose|i: int| occurs_at(x, p, i);
    assert(x.subrange(i, i + p.len()) =~= (x + y).subrange(i, i + p.len()));
    assert(occurs_at(x + y, p, i));
}

proof fn lemma_held_is_a_tail(x: Seq<char>) -> (m: int)
    ensures
        0 <= m <= x.len(),
        held(x) == x.skip(m),
{
    if byte_len(x) > 64 {
        lemma_a_tail_exists(x);
        tail_cut(x)
    } else {
        assert(x.skip(0) =~= x);
        0
    }
}

proof fn lemma_inside_without_close(seen: Seq<char>, inside: int, texts: Seq<Seq<char>>, strip: bool)
    requires
        !contains(seen + texts_joined(texts), close_tag()),
    ensures
        accepts(ThinkState::Inside, seen, inside, texts, strip).0 == ThinkState::Inside,
        accepts(ThinkState::Inside, seen, inside, texts, strip).2 == inside + texts.len(),
    decreases texts.len(),
{
    if texts.len() > 0 {
        let x = seen + texts[0];
        let rest = texts_joined(texts.skip(1));
        assert(x + rest =~= seen + texts_joined(texts));
        let m = lemma_held_is_a_tail(x);
        let s = held(x);
        if contains(s, close_tag()) {
            lemma_contains_in_tail(x, m, close_tag());
            lemma_contains_in_head(x, rest, close_tag());
        }
        assert((x + rest).skip(m) =~= s + rest);
        if contains(s + rest, close_tag()) {
            lemma_contains_in_tail(x + rest, m, close_tag());
        }
        lemma_inside_without_close(s, inside + 1, texts.skip(1), strip);
    }
}

/// The reasoning budget counts the tokens inside the block: once a fresh
/// tracker has seen `<think>`, it is past a budget `b` after `k` more
/// tokens that leave it inside exactly when `b >= 0` and `k > b` (so -1 is
/// unlimited and 0 is exceeded by the first token inside); tokens whose
/// texts together hold no `</think>` leave it inside, wherever the tag would
/// have been split; a fresh tracker is never past it, and neither is one
/// that has passed `</think>`.
pub proof fn lemma_think_budget_counts_tokens(texts: Seq<Seq<char>>, strip: bool, budget: i64)
    ensures
        !past_budget(budget, ThinkState::Before, 0),
        accept_spec(ThinkState::Before, Seq::empty(), 0, open_tag(), strip).0 == ThinkState::Inside,
        accept_spec(ThinkState::Before, Seq::empty(), 0, open_tag(), strip).2 == 0,
        ({
            let (st, _, n) = accepts(ThinkState::Inside, Seq::empty(), 0, texts, strip);
            &&& st == ThinkState::Inside ==> (past_budget(budget, st, n) <==> budget >= 0 && texts.len() > budget)
            &&& st != ThinkState::Inside ==> !past_budget(budget, st, n)
        }),
        !contains(texts_joined(texts), close_tag()) ==> ({
            let (st, _, n) = accepts(ThinkState::Inside, Seq::empty(), 0, texts, strip);
            &&& st == ThinkState::Inside
            &&& past_budget(budget, st, n) <==> budget >= 0 && texts.len() > budget
        }),
{
    let s = Seq::<char>::empty() + open_tag();
    assert(s =~= open_tag());
    assert(byte_len(open_tag()) == 7) by {
        reveal_with_fuel(byte_len, 8);
    }
    assert(contains(open_tag(), open_tag())) by {
        assert(open_tag().subrange(0, open_tag().len() as int) =~= open_tag());
        assert(occurs_at(open_tag(), open_tag(), 0));
    }
    lemma_inside_counts(Seq::empty(), 0, texts, strip);
    if !contains(texts_joined(texts), close_tag()) {
        assert(Seq::<char>::empty() + texts_joined(texts) =~= texts_joined(texts));
        lemma_inside_without_close(Seq::empty(), 0, texts, strip);
    }
}

/// The flags this build recognises and declines, whether each takes an
/// argument, and why it is declined.
///
/// A command line copied from llama.cpp should not die on an unknown flag,
/// and must not silently do less than it says either: each of these consumes
/// its argument and exits naming what it would have needed.
pub open spec fn refused_rows() -> Seq<(Seq<char>, bool, Seq<char>)> {
    seq![
        ("--split-mode"@, true, "the scheduler IS wired into the forward pass now (see --op-offload); what is missing is a SECOND USABLE DEVICE. This machine's other GPU is an integrated one that is slower than the CPU path, so splitting across devices cannot be verified here and will not be claimed unverified"@),
        ("--tensor-split"@, true, "proportions across several devices, and there is only one usable device here -- same blocker as --split-mode, and it is hardware rather than code"@),
        ("--kv-offload"@, false, "the KV cache is host memory even on the device path; moving it needs the cache push and the router to stop consuming host vectors"@),
        ("--backend-sampling"@, false, "sampling runs on the host. A device exists now, so the old reason was wrong: what is missing is that sampling is Rust over a logits vector rather than a ggml graph, and only a graph can be scheduled onto a backend"@),
        ("--cache-type-k-draft"@, true, "no draft model support"@),
        ("--cache-type-v-draft"@, true, "no draft model support"@),
        ("--spec-draft-type-k"@, true, "no draft model support"@),
        ("--spec-draft-type-v"@, true, "no draft model support"@),
        ("--parallel"@, true, "one sequence at a time by design: one weight set, one KV cache"@),
        ("--defrag-thold"@, true, "the KV cache is append-only and never fragments"@),
        ("--grp-attn-n"@, true, "self-extend is not implemented; `--rope-scale` and YaRN are"@),
        ("--grp-attn-w"@, true, "self-extend is not implemented"@),
        ("--no-host"@, false, "llama.cpp's flag bypasses the host buffer so extra buffer types can be used. Here the DEFAULT already binds host weights zero-copy with no buffer at all, so the flag is a no-op -- except under --op-offload, where host buffers are what makes a split copyable and removing them is a segfault"@),
        ("--no-mmproj"@, false, "no multimodal projector support"@),
        ("--docker-repo"@, true, "no Docker model registry support"@),
        ("--poll"@, true, "ggml does expose ggml_threadpool_new, so this is reachable; we call ggml_graph_compute_with_ctx, which builds a transient plan with no threadpool. Not done because ggml_threadpool_params carries a fixed-size cpumask array and a mistranscribed FFI struct is silent corruption in the path every graph uses -- a bad trade for a polling knob. `-t`/`-tb` are the levers that exist"@),
        ("--poll-batch"@, true, "same as --poll: reachable through ggml_threadpool_new, not worth a hand-transcribed params struct in the shared compute path"@),
    ]
}

/// The declined flags, in the order `refused_rows` lists them.
pub fn refused() -> (r: Vec<(&'static str, bool, &'static str)>)
    ensures
        r@.map_values(|x: (&'static str, bool, &'static str)| (x.0@, x.1, x.2@)) == refused_rows(),
{
    let r = vec![
        ("--split-mode", true, "the scheduler IS wired into the forward pass now (see --op-offload); what is missing is a SECOND USABLE DEVICE. This machine's other GPU is an integrated one that is slower than the CPU path, so splitting across devices cannot be verified here and will not be claimed unverified"),
        ("--tensor-split", true, "proportions across several devices, and there is only one usable device here -- same blocker as --split-mode, and it is hardware rather than code"),
        ("--kv-offload", false, "the KV cache is host memory even on the device path; moving it needs the cache push and the router to stop consuming host vectors"),
        ("--backend-sampling", false, "sampling runs on the host. A device exists now, so the old reason was wrong: what is missing is that sampling is Rust over a logits vector rather than a ggml graph, and only a graph can be scheduled onto a backend"),
        ("--cache-type-k-draft", true, "no draft model support"),
        ("--cache-type-v-draft", true, "no draft model support"),
        ("--spec-draft-type-k", true, "no draft model support"),
        ("--spec-draft-type-v", true, "no draft model support"),
        ("--parallel", true, "one sequence at a time by design: one weight set, one KV cache"),
        ("--defrag-thold", true, "the KV cache is append-only and never fragments"),
        ("--grp-attn-n", true, "self-extend is not implemented; `--rope-scale` and YaRN are"),
        ("--grp-attn-w", true, "self-extend is not implemented"),
        ("--no-host", false, "llama.cpp's flag bypasses the host buffer so extra buffer types can be used. Here the DEFAULT already binds host weights zero-copy with no buffer at all, so the flag is a no-op -- except under --op-offload, where host buffers are what makes a split copyable and removing them is a segfault"),
        ("--no-mmproj", false, "no multimodal projector support"),
        ("--docker-repo", true, "no Docker model registry support"),
        ("--poll", true, "ggml does expose ggml_threadpool_new, so this is reachable; we call ggml_graph_compute_with_ctx, which builds a transient plan with no threadpool. Not done because ggml_threadpool_params carries a fixed-size cpumask array and a mistranscribed FFI struct is silent corruption in the path every graph uses -- a bad trade for a polling knob. `-t`/`-tb` are the levers that exist"),
        ("--poll-batch", true, "same as --poll: reachable through ggml_threadpool_new, not worth a hand-transcribed params struct in the shared compute path"),
    ];
    assert(r@.map_values(|x: (&'static str, bool, &'static str)| (x.0@, x.1, x.2@)) =~= refused_rows());
    r
}

/// Whether `flag` is declined: whether it takes an argument, and the reason,
/// from the first row that names it.
pub fn refusal(flag: &str) -> (r: Option<(bool, &'static str)>)
    ensures
        match r {
            Some((takes, why)) => exists|i: int|
                0 <= i < refused_rows().len() && refused_rows()[i] == (flag@, takes, why@)
                    && forall|j: int| 0 <= j < i ==> refused_rows()[j].0 != flag@,
            None => forall|i: int| 0 <= i < refused_rows().len() ==> refused_rows()[i].0 != flag@,
        },
{
    let all = refused();
    let ghost rows = all@.map_values(|x: (&'static str, bool, &'static str)| (x.0@, x.1, x.2@));
    let mut i: usize = 0;
    while i < all.len()
        invariant
            i <= all.len(),
            rows == refused_rows(),
            rows == all@.map_values(|x: (&'static str, bool, &'static str)| (x.0@, x.1, x.2@)),
            forall|j: int| 0 <= j < i ==> rows[j].0 != flag@,
        decreases all.len() - i,
    {
        let (f, takes, why) = all[i];
        assert(rows[i as int] == (f@, takes, why@));
        if str_eq(f, flag) {
            return Some((takes, why));
        }
        i = i + 1;
    }
    None
}

/// The fill-in-the-middle marker words, as they appear inside control tokens.
pub open spec fn fim_markers() -> Seq<Seq<char>> {
    seq![
        "fim_prefix"@,
        "fim_middle"@,
        "fim_suffix"@,
        "fim_pad"@,
        "fim_rep"@,
        "fim_sep"@,
        "fim_pre"@,
        "fim_suf"@,
        "fim_mid"@,
        "PRE"@,
        "SUF"@,
        "MID"@,
        "EOT"@,
    ]
}

/// Whether a vocabulary entry is a fill-in-the-middle control token: it is
/// bracketed as a control token, `<|...|>` or `<...>`, and names a marker. A
/// word that merely contains `PRE` is ordinary vocabulary.
pub open spec fn infill_spec(t: Seq<char>) -> bool {
    let bracketed = (starts_with(t, seq!['<', '|']) && ends_with(t, seq!['|', '>'])) || (
    starts_with(t, seq!['<']) && ends_with(t, seq!['>']));
    bracketed && exists|m: int| 0 <= m < fim_markers().len() && contains(t, fim_markers()[m])
}

fn markers() -> (r: Vec<&'static str>)
    ensures
        r@.map_values(|m: &'static str| m@) == fim_markers(),
{
    let r = vec![
        "fim_prefix",
        "fim_middle",
        "fim_suffix",
        "fim_pad",
        "fim_rep",
        "fim_sep",
        "fim_pre",
        "fim_suf",
        "fim_mid",
        "PRE",
        "SUF",
        "MID",
        "EOT",
    ];
    assert(r@.map_values(|m: &'static str| m@) =~= fim_markers());
    r
}

/// Whether the token text `t` is a fill-in-the-middle control token.
pub fn is_infill_marker(t: &str) -> (r: bool)
    ensures
        r == infill_spec(t@),
{
    proof {
        reveal_strlit("<|");
        reveal_strlit("|>");
        reveal_strlit("<");
        reveal_strlit(">");
        assert("<|"@ =~= seq!['<', '|']);
        assert("|>"@ =~= seq!['|', '>']);
        assert("<"@ =~= seq!['<']);
        assert(">"@ =~= seq!['>']);
    }
    let cs = chars_of(t);
    let c = cs.as_slice();
    let bracketed = (has_prefix(c, "<|") && has_suffix(c, "|>")) || (has_prefix(c, "<")
        && has_suffix(c, ">"));
    if !bracketed {
        return false;
    }
    let ms = markers();
    let ghost mv = ms@.map_values(|m: &'static str| m@);
    let mut i: usize = 0;
    while i < ms.len()
        invariant
            i <= ms.len(),
            mv == fim_markers(),
            mv == ms@.map_values(|m: &'static str| m@),
            cs@ == t@,
            c@ == t@,
            (starts_with(t@, seq!['<', '|']) && ends_with(t@, seq!['|', '>'])) || (starts_with(
                t@,
                seq!['<'],
            ) && ends_with(t@, seq!['>'])),
            forall|j: int| 0 <= j < i ==> !contains(t@, mv[j]),
        decreases ms.len() - i,
    {
        assert(mv[i as int] == ms@[i as int]@);
        if has_infix(c, ms[i]) {
            return true;
        }
        i = i + 1;
    }
    false
}

/// The ids, in order, of the entries among the first `n` whose text is a
/// fill-in-the-middle control token.
pub open spec fn infill_ids(texts: Seq<Option<Seq<char>>>, n: int) -> Seq<u32>
    decreases n,
{
    if n <= 0 {
        Seq::empty()
    } else {
        let rest = infill_ids(texts, n - 1);
        match texts[n - 1] {
            Some(t) => if infill_spec(t) {
                rest.push((n - 1) as u32)
            } else {
                rest
            },
            None => rest,
        }
    }
}

pub open spec fn text_views(texts: Seq<Option<String>>) -> Seq<Option<Seq<char>>> {
    texts.map_values(
        |o: Option<String>|
            match o {
                Some(t) => Some(t@),
                None => None,
            },
    )
}

/// The fill-in-the-middle control tokens of a vocabulary, given the text of
/// each id (`None` where an id has none). Suppressing them keeps a stray
/// control token out of a completion that is spliced back into a file.
pub fn infill_tokens(texts: &Vec<Option<String>>) -> (r: Vec<u32>)
    requires
        texts@.len() <= u32::MAX,
    ensures
        r@ == infill_ids(text_views(texts@), texts@.len() as int),
{
    let ghost tv = text_views(texts@);
    let mut out: Vec<u32> = Vec::new();
    let mut i: usize = 0;
    while i < texts.len()
        invariant
            i <= texts.len() <= u32::MAX,
            tv == text_views(texts@),
            out@ == infill_ids(tv, i as int),
        decreases texts.len() - i,
    {
        match &texts[i] {
            Some(t) => {
                assert(tv[i as int] == Some(t@));
                if is_infill_marker(t.as_str()) {
                    out.push(i as u32);
                }
            },
            None => {
                assert(tv[i as int] is None);
            },
        }
        i = i + 1;
    }
    out
}

/// How a container is read: `direct`, bypassing the page cache, unless the
/// whole of it is known to fit in the memory that is free. Zero on either
/// side means something could not be read, and direct is the safer default.
pub open spec fn io_mode_spec(on_disk: int, avail: int) -> Seq<char> {
    if on_disk == 0 || avail == 0 || on_disk > avail {
        "direct"@
    } else {
        "buffered"@
    }
}

pub open spec fn total(sizes: Seq<u64>) -> int
    decreases sizes.len(),
{
    if sizes.len() == 0 {
        0
    } else {
        total(sizes.drop_last()) + sizes.last()
    }
}

/// `direct` or `buffered`, from the sizes of the container's shards that
/// could be read and the memory available, if that could be read.
pub fn pick_io_mode(sizes: &[u64], avail: Option<u64>) -> (r: &'static str)
    requires
        total(sizes@) <= u64::MAX,
    ensures
        r@ == io_mode_spec(
            total(sizes@),
            match avail {
                Some(a) => a as int,
                None => 0,
            },
        ),
{
    let mut on_disk: u64 = 0;
    let mut i: usize = 0;
    while i < sizes.len()
        invariant
            i <= sizes.len(),
            total(sizes@) <= u64::MAX,
            on_disk == total(sizes@.take(i as int)),
        decreases sizes.len() - i,
    {
        proof {
            assert(sizes@.take(i + 1).drop_last() == sizes@.take(i as int));
            lemma_total_prefix(sizes@, i + 1);
        }
        on_disk = on_disk + sizes[i];
        i = i + 1;
    }
    assert(sizes@.take(sizes.len() as int) == sizes@);
    let avail = match avail {
        Some(a) => a,
        None => 0,
    };
    if on_disk == 0 || avail == 0 || on_disk > avail {
        "direct"
    } else {
        "buffered"
    }
}

proof fn lemma_total_prefix(s: Seq<u64>, k: int)
    requires
        0 <= k <= s.len(),
    ensures
        total(s.take(k)) <= total(s),
    decreases s.len() - k,
{
    if k < s.len() {
        lemma_total_prefix(s, k + 1);
        assert(s.take(k + 1).drop_last() == s.take(k));
    } else {
        assert(s.take(k) == s);
    }
}

/// What to do with a thinking block.
pub struct Reasoning {
    /// `false` keeps the block in the visible output.
    pub strip: bool,
    /// Tokens the block may take. `0` suppresses thinking entirely; a
    /// negative budget is unlimited.
    pub budget: i64,
    /// Printed in place of a block that was cut short.
    pub budget_message: Option<String>,
}

impl Default for Reasoning {
    /// Off: the block is shown, with no budget, as the command line does
    /// unless told otherwise.
    fn default() -> (r: Self)
        ensures
            !r.strip,
            r.budget == -1,
            r.budget_message is None,
    {
        Reasoning { strip: false, budget: -1, budget_message: None }
    }
}

/// Whether any of the non-empty `needles` occurs in `text`: a stop string
/// ends the answer, a grammar trigger arms the grammar.
pub open spec fn mentions_any(text: Seq<char>, needles: Seq<Seq<char>>) -> bool {
    exists|i: int| 0 <= i < needles.len() && needles[i].len() > 0 && contains(text, needles[i])
}

/// Whether the text generated so far holds any of `needles`. Matched on the
/// accumulated text rather than per token, because a stop string can
/// straddle a token boundary.
pub fn holds_any(text: &str, needles: &Vec<String>) -> (r: bool)
    ensures
        r == mentions_any(text@, needles@.map_values(|n: String| n@)),
{
    let cs = chars_of(text);
    let ghost nv = needles@.map_values(|n: String| n@);
    let mut i: usize = 0;
    while i < needles.len()
        invariant
            i <= needles.len(),
            nv == needles@.map_values(|n: String| n@),
            cs@ == text@,
            forall|j: int| 0 <= j < i ==> !(nv[j].len() > 0 && contains(text@, nv[j])),
        decreases needles.len() - i,
    {
        let n = needles[i].as_str();
        assert(nv[i as int] == n@);
        if chars_of(n).len() > 0 && has_infix(cs.as_slice(), n) {
            return true;
        }
        i = i + 1;
    }
    false
}

/// What "full" means for the context: an explicit size wins, then the
/// model's trained context, and failing both it never fills.
pub open spec fn shift_limit_spec(ctx_size: Option<usize>, rope_orig_ctx: u32) -> usize {
    match ctx_size {
        Some(c) => c,
        None => if rope_orig_ctx > 0 {
            rope_orig_ctx as usize
        } else {
            usize::MAX
        },
    }
}

pub fn shift_limit(ctx_size: Option<usize>, rope_orig_ctx: u32) -> (r: usize)
    ensures
        r == shift_limit_spec(ctx_size, rope_orig_ctx),
{
    match ctx_size {
        Some(c) => c,
        None => if rope_orig_ctx > 0 {
            rope_orig_ctx as usize
        } else {
            usize::MAX
        },
    }
}

/// The shift made before computing position `pos` once the context is
/// full: keep the first `keep` tokens (never all but one) and drop the
/// oldest half of what follows, at least one. `None` when no shift is due.
pub open spec fn shift_spec(on: bool, keep: usize, pos: usize, limit: usize) -> Option<(usize, usize)> {
    if on && pos + 1 >= limit {
        let k = if keep < (if pos >= 1 { pos - 1 } else { 0 }) {
            keep as int
        } else {
            if pos >= 1 { pos - 1 } else { 0 }
        };
        let d = if (pos - k) / 2 >= 1 { (pos - k) / 2 } else { 1 };
        Some((k as usize, d as usize))
    } else {
        None
    }
}

/// `--context-shift`: how many tokens to keep and to drop before position
/// `pos`, if the context is full.
pub fn context_shift(on: bool, keep: usize, pos: usize, limit: usize) -> (r: Option<(usize, usize)>)
    requires
        pos < usize::MAX,
    ensures
        r == shift_spec(on, keep, pos, limit),
        r matches Some((k, d)) ==> k <= pos && 1 <= d && (pos >= 1 ==> k + d <= pos),
{
    if on && pos + 1 >= limit {
        let floor = pos.saturating_sub(1);
        let k = if keep < floor {
            keep
        } else {
            floor
        };
        let half = (pos - k) / 2;
        let d = if half >= 1 {
            half
        } else {
            1
        };
        Some((k, d))
    } else {
        None
    }
}

/// A line read from the terminal without the line ending: every trailing
/// `\n` and `\r` removed.
pub open spec fn without_line_end(s: Seq<char>) -> Seq<char>
    decreases s.len(),
{
    if s.len() > 0 && (s.last() == '\n' || s.last() == '\r') {
        without_line_end(s.drop_last())
    } else {
        s
    }
}

/// One line of a user's turn taken into the turn held so far: the new text
/// held, and whether the turn is complete. With multi-line input a line that
/// ends in a backslash continues onto the next; a turn that is blank so far
/// is not sent, and is started again.
pub open spec fn turn_step(held: Seq<char>, line: Seq<char>, multiline: bool) -> (Seq<char>, bool) {
    let t = without_line_end(line);
    if multiline && t.len() > 0 && t.last() == '\\' {
        (held + t.drop_last() + seq!['\n'], false)
    } else if trim(held + t).len() == 0 {
        (Seq::empty(), false)
    } else {
        (held + t, true)
    }
}

/// Take one line read from the terminal into the turn in `held`. Returns
/// whether the turn is complete, in which case `held` is it.
pub fn take_line(held: &mut String, line: &str, multiline: bool) -> (done: bool)
    ensures
        (final(held)@, done) == turn_step(old(held)@, line@, multiline),
{
    let cs = chars_of(line);
    let mut end: usize = cs.len();
    assert(cs@.subrange(0, end as int) =~= line@);
    while end > 0 && (cs[end - 1] == '\n' || cs[end - 1] == '\r')
        invariant
            end <= cs@.len(),
            cs@ == line@,
            without_line_end(cs@.subrange(0, end as int)) == without_line_end(line@),
        decreases end,
    {
        assert(cs@.subrange(0, end as int).drop_last() =~= cs@.subrange(0, end - 1));
        end = end - 1;
    }
    let t = crate::text::sub_chars(cs.as_slice(), 0, end);
    if multiline && t.len() > 0 && t[t.len() - 1] == '\\' {
        let head = crate::text::sub_chars(t.as_slice(), 0, t.len() - 1);
        assert(head@ =~= t@.drop_last());
        crate::text::push_chars(held, head.as_slice());
        push_char(held, '\n');
        return false;
    }
    crate::text::push_chars(held, t.as_slice());
    let all = chars_of(held.as_str());
    if crate::text::trimmed(all.as_slice()).len() == 0 {
        *held = String::new();
        false
    } else {
        true
    }
}

/// What the command line asks for before any model is opened.
pub enum EarlyAction {
    /// `--usage`: the terse usage line, exit status 2.
    Terse,
    Version,
    /// `--update`, and whether `--yes` or `-y` was given anywhere.
    Update(bool),
    /// `--help` or `-h`: the full option list.
    Help,
    CompletionBash,
    /// No arguments at all: the full option list.
    Usage,
    /// Go on: the positional model path when the first argument is not a
    /// flag, and the index the flags start at.
    Run(Option<String>, usize),
}

pub enum EarlyModel {
    Terse,
    Version,
    Update(bool),
    Help,
    CompletionBash,
    Usage,
    Run(Option<Seq<char>>, nat),
}

impl EarlyAction {
    pub open spec fn model(&self) -> EarlyModel {
        match self {
            EarlyAction::Terse => EarlyModel::Terse,
            EarlyAction::Version => EarlyModel::Version,
            EarlyAction::Update(y) => EarlyModel::Update(*y),
            EarlyAction::Help => EarlyModel::Help,
            EarlyAction::CompletionBash => EarlyModel::CompletionBash,
            EarlyAction::Usage => EarlyModel::Usage,
            EarlyAction::Run(p, k) => EarlyModel::Run(
                match p {
                    Some(s) => Some(s@),
                    None => None,
                },
                *k as nat,
            ),
        }
    }
}

/// The first of the early flags at or after `i`, before a `--` that starts
/// the prompt. They are honoured wherever they stand, since asking for help
/// is what someone does who does not know where a flag goes.
pub open spec fn early_flag(argv: Seq<Seq<char>>, i: int) -> Option<EarlyModel>
    decreases argv.len() - i,
{
    if i < 0 || i >= argv.len() || argv[i] == "--"@ {
        None
    } else if argv[i] == "--usage"@ {
        Some(EarlyModel::Terse)
    } else if argv[i] == "--version"@ {
        Some(EarlyModel::Version)
    } else if argv[i] == "--update"@ {
        Some(EarlyModel::Update(argv.contains("--yes"@) || argv.contains("-y"@)))
    } else if argv[i] == "--help"@ || argv[i] == "-h"@ {
        Some(EarlyModel::Help)
    } else if argv[i] == "--completion-bash"@ {
        Some(EarlyModel::CompletionBash)
    } else {
        early_flag(argv, i + 1)
    }
}

/// Whether the first argument is a flag rather than the model path. A lone
/// `-` is not a flag.
pub open spec fn leads_with_flag(argv: Seq<Seq<char>>) -> bool {
    argv.len() > 0 && argv[0].len() > 0 && argv[0][0] == '-' && argv[0] != "-"@
}

pub open spec fn early_spec(argv: Seq<Seq<char>>) -> EarlyModel {
    match early_flag(argv, 0) {
        Some(a) => a,
        None => if leads_with_flag(argv) {
            EarlyModel::Run(None, 0)
        } else if argv.len() == 0 {
            EarlyModel::Usage
        } else {
            EarlyModel::Run(Some(argv[0]), 1)
        },
    }
}

fn any_is(argv: &Vec<String>, a: &str, b: &str) -> (r: bool)
    ensures
        r == (argv@.map_values(|s: String| s@).contains(a@) || argv@.map_values(|s: String| s@).contains(b@)),
{
    let ghost v = argv@.map_values(|s: String| s@);
    let mut i: usize = 0;
    while i < argv.len()
        invariant
            i <= argv.len(),
            v == argv@.map_values(|s: String| s@),
            forall|k: int| 0 <= k < i ==> v[k] != a@ && v[k] != b@,
        decreases argv.len() - i,
    {
        if str_eq(argv[i].as_str(), a) || str_eq(argv[i].as_str(), b) {
            assert(v[i as int] == argv[i as int]@);
            return true;
        }
        i = i + 1;
    }
    false
}

/// Decide what the command line asks for before a model is opened:
/// `--usage`, `--version`, `--update`, `--help` or `-h`, and
/// `--completion-bash` are honoured wherever they stand before `--`; with
/// none of them, the first argument is the model path unless it is a flag,
/// and no arguments at all ask for the option list.
pub fn early_action(argv: &Vec<String>) -> (r: EarlyAction)
    ensures
        r.model() == early_spec(argv@.map_values(|s: String| s@)),
{
    let ghost v = argv@.map_values(|s: String| s@);
    let mut i: usize = 0;
    while i < argv.len()
        invariant
            i <= argv.len(),
            v == argv@.map_values(|s: String| s@),
            early_flag(v, 0) == early_flag(v, i as int),
        ensures
            early_flag(v, 0) is None,
        decreases argv.len() - i,
    {
        let a = argv[i].as_str();
        assert(v[i as int] == a@);
        if str_eq(a, "--") {
            break;
        } else if str_eq(a, "--usage") {
            return EarlyAction::Terse;
        } else if str_eq(a, "--version") {
            return EarlyAction::Version;
        } else if str_eq(a, "--update") {
            return EarlyAction::Update(any_is(argv, "--yes", "-y"));
        } else if str_eq(a, "--help") || str_eq(a, "-h") {
            return EarlyAction::Help;
        } else if str_eq(a, "--completion-bash") {
            return EarlyAction::CompletionBash;
        }
        i = i + 1;
    }
    if argv.len() == 0 {
        return EarlyAction::Usage;
    }
    let first = argv[0].as_str();
    let cs = chars_of(first);
    assert(v[0] == first@);
    if cs.len() > 0 && cs[0] == '-' && !str_eq(first, "-") {
        EarlyAction::Run(None, 0)
    } else {
        EarlyAction::Run(Some(argv[0].clone()), 1)
    }
}

/// Where the model comes from when `-m` and the positional path are not
/// all there is: a bare URL first, then `-hf owner/name[/file]`, then
/// `--hf-repo owner/name`.
pub enum ModelSource {
    Url(String),
    HfSpec(String),
    HfRepo(String),
    Local,
}

pub fn model_source(hf_spec: Option<&str>, hf_repo: Option<&str>, model_url: Option<&str>) -> (r: ModelSource)
    ensures
        match (model_url, hf_spec, hf_repo) {
            (Some(u), _, _) => r matches ModelSource::Url(x) && x@ == u@,
            (None, Some(h), _) => r matches ModelSource::HfSpec(x) && x@ == h@,
            (None, None, Some(p)) => r matches ModelSource::HfRepo(x) && x@ == p@,
            (None, None, None) => r is Local,
        },
{
    match (model_url, hf_spec, hf_repo) {
        (Some(u), _, _) => ModelSource::Url(String::from_str(u)),
        (None, Some(h), _) => ModelSource::HfSpec(String::from_str(h)),
        (None, None, Some(p)) => ModelSource::HfRepo(String::from_str(p)),
        (None, None, None) => ModelSource::Local,
    }
}

/// The text after the last `/`: what a download is saved as.
pub open spec fn last_segment(s: Seq<char>) -> Seq<char>
    decreases s.len(),
{
    if s.len() == 0 {
        s
    } else if s.last() == '/' {
        Seq::empty()
    } else {
        last_segment(s.drop_last()).push(s.last())
    }
}

/// The file name a URL is saved under: its last path segment.
pub fn url_file_name(url: &str) -> (r: String)
    ensures
        r@ == last_segment(url@),
{
    let cs = chars_of(url);
    let mut k: usize = cs.len();
    assert(cs@.take(k as int) =~= url@);
    assert(cs@.skip(k as int) =~= Seq::<char>::empty());
    while k > 0 && cs[k - 1] != '/'
        invariant
            k <= cs@.len(),
            cs@ == url@,
            last_segment(url@) == last_segment(cs@.take(k as int)) + cs@.skip(k as int),
        decreases k,
    {
        let ghost t = cs@.take(k as int);
        assert(t.drop_last() =~= cs@.take(k - 1));
        assert(cs@.skip(k - 1) =~= seq![t.last()] + cs@.skip(k as int));
        assert(last_segment(t) == last_segment(t.drop_last()).push(t.last()));
        k = k - 1;
    }
    assert(last_segment(cs@.take(k as int)) =~= Seq::<char>::empty()) by {
        if k > 0 {
            assert(cs@.take(k as int).last() == '/');
        }
    }
    let out = crate::text::sub_chars(cs.as_slice(), k, cs.len());
    assert(out@ =~= cs@.skip(k as int));
    crate::text::string_of(out.as_slice())
}

/// The refusal for a repo named without a file: a repo holds several
/// quants, and one is not picked for the user.
pub open spec fn no_file_message(repo: Seq<char>) -> Seq<char> {
    "--hf-repo "@ + repo + " names a repo but not a file. Pass --hf-file <name.gguf>, or use -hf "@ + repo
        + "/<name.gguf>. Listing a repo's quants needs the Hugging Face API, which this build does not call."@
}

/// The repo and file to fetch: the file the spec named, else `--hf-file`;
/// with neither, the refusal.
pub fn hf_target(repo: &str, file: Option<&str>, hf_file: Option<&str>) -> (r: Result<(String, String), String>)
    ensures
        match (file, hf_file) {
            (Some(f), _) => r matches Ok((a, b)) && a@ == repo@ && b@ == f@,
            (None, Some(f)) => r matches Ok((a, b)) && a@ == repo@ && b@ == f@,
            (None, None) => r matches Err(m) && m@ == no_file_message(repo@),
        },
{
    match file {
        Some(f) => Ok((String::from_str(repo), String::from_str(f))),
        None => match hf_file {
            Some(f) => Ok((String::from_str(repo), String::from_str(f))),
            None => {
                let mut m = String::from_str("--hf-repo ");
                crate::text::push_str(&mut m, repo);
                crate::text::push_str(&mut m, " names a repo but not a file. Pass --hf-file <name.gguf>, or use -hf ");
                crate::text::push_str(&mut m, repo);
                crate::text::push_str(
                    &mut m,
                    "/<name.gguf>. Listing a repo's quants needs the Hugging Face API, which this build does not call.",
                );
                Err(m)
            },
        },
    }
}

/// Whether `pick_io_mode` can add up the shard sizes.
pub fn sizes_add_up(sizes: &[u64]) -> (r: bool)
    ensures
        r == (total(sizes@) <= u64::MAX),
{
    let mut acc: u128 = 0;
    let mut i: usize = 0;
    while i < sizes.len()
        invariant
            i <= sizes@.len(),
            acc == total(sizes@.take(i as int)),
            acc <= u64::MAX,
        decreases sizes.len() - i,
    {
        assert(sizes@.take(i + 1).drop_last() =~= sizes@.take(i as int));
        acc = acc + sizes[i] as u128;
        i = i + 1;
        if acc > 0xffff_ffff_ffff_ffff {
            proof {
                lemma_total_prefix(sizes@, i as int);
            }
            return false;
        }
    }
    assert(sizes@.take(sizes@.len() as int) =~= sizes@);
    true
}


} // verus!
