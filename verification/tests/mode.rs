use lib::mode::Mode;

#[test]
fn a_mode_round_trips_and_a_bad_one_does_not_panic() {
    for m in [Mode::Light, Mode::Dark] {
        assert_eq!(Mode::parse(m.as_str()), Some(m));
        assert_eq!(m.toggled().toggled(), m);
        assert_ne!(m.toggled(), m);
    }
    assert_eq!(Mode::parse("LIGHT"), Some(Mode::Light));
    assert_eq!(Mode::parse("  dark  "), Some(Mode::Dark));
    assert_eq!(Mode::parse("chartreuse"), None);
}

#[test]
fn a_mode_is_spelled_in_lower_case() {
    assert_eq!(Mode::Light.as_str(), "light");
    assert_eq!(Mode::Dark.as_str(), "dark");
    assert_eq!(Mode::parse("\tDaRk\n"), Some(Mode::Dark));
    assert_eq!(Mode::parse(""), None);
    assert_eq!(Mode::parse("dark mode"), None);
}
