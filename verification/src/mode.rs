//! Which way round the palette runs, as persisted in the settings file.
use vstd::prelude::*;
use crate::text::{chars_of, lower, lowered, same_chars, trim, trim_end, trim_start, trimmed};

verus! {

/// Which way round the palette runs. `mode = light` is a line in the settings
/// file, so its spelling and its parser live here.
#[derive(Clone, Copy, PartialEq, Eq, Debug, Structural)]
pub enum Mode {
    /// The default: a light ground with near-black text.
    Light,
    Dark,
}

/// The spelling of a mode in the settings file.
pub open spec fn mode_word(m: Mode) -> Seq<char> {
    match m {
        Mode::Light => seq!['l', 'i', 'g', 'h', 't'],
        Mode::Dark => seq!['d', 'a', 'r', 'k'],
    }
}

/// The other mode.
pub open spec fn spec_toggled(m: Mode) -> Mode {
    match m {
        Mode::Light => Mode::Dark,
        Mode::Dark => Mode::Light,
    }
}

/// What a settings value means: surrounding whitespace is ignored and letters
/// are compared without regard to ASCII case.
pub open spec fn parse_mode(s: Seq<char>) -> Option<Mode> {
    let t = lower(trim(s));
    if t == mode_word(Mode::Light) {
        Some(Mode::Light)
    } else if t == mode_word(Mode::Dark) {
        Some(Mode::Dark)
    } else {
        None
    }
}

impl Mode {
    pub fn toggled(self) -> (r: Self)
        ensures
            r == spec_toggled(self),
    {
        match self {
            Mode::Light => Mode::Dark,
            Mode::Dark => Mode::Light,
        }
    }

    pub fn as_str(self) -> (r: &'static str)
        ensures
            r@ == mode_word(self),
    {
        proof {
            reveal_strlit("light");
            reveal_strlit("dark");
        }
        match self {
            Mode::Light => "light",
            Mode::Dark => "dark",
        }
    }

    pub fn parse(s: &str) -> (r: Option<Self>)
        ensures
            r == parse_mode(s@),
    {
        let cs = chars_of(s);
        let t = lowered(trimmed(cs.as_slice()).as_slice());
        let light = chars_of(Mode::Light.as_str());
        let dark = chars_of(Mode::Dark.as_str());
        if same_chars(t.as_slice(), light.as_slice()) {
            Some(Mode::Light)
        } else if same_chars(t.as_slice(), dark.as_slice()) {
            Some(Mode::Dark)
        } else {
            None
        }
    }
}

/// A mode survives being written to the settings file and read back.
pub proof fn lemma_mode_round_trips(m: Mode)
    ensures
        parse_mode(mode_word(m)) == Some(m),
{
    let w = mode_word(m);
    assert(trim_start(w) == w);
    assert(trim_end(w) == w);
    assert(trim(w) == w);
    assert(lower(w) =~= w);
    assert(mode_word(Mode::Light) != mode_word(Mode::Dark)) by {
        assert(mode_word(Mode::Light).len() != mode_word(Mode::Dark).len());
    }
}

/// Toggling twice is the identity, and toggling always changes the mode.
pub proof fn lemma_toggle_involution(m: Mode)
    ensures
        spec_toggled(spec_toggled(m)) == m,
        spec_toggled(m) != m,
{
}

} // verus!
