use lib::overrides::{parse_i64_chars, parse_override, OverrideValue};

fn value(spec: &str) -> Option<(String, OverrideValue)> {
    parse_override(spec)
}

#[test]
fn an_integer_override_is_read_in_llama_cpp_spelling() {
    match value(" qwen3.context_length = INT: 32768 ") {
        Some((k, OverrideValue::Int(v))) => {
            assert_eq!(k, "qwen3.context_length");
            assert_eq!(v, 32768);
        }
        _ => panic!("expected an integer override"),
    }
    assert!(matches!(value("k=u64:-5"), Some((_, OverrideValue::Int(-5)))));
    assert!(value("k=i32:12x").is_none());
    assert!(value("k=int:").is_none());
}

#[test]
fn booleans_strings_and_floats() {
    assert!(matches!(value("k=bool:1"), Some((_, OverrideValue::Bool(true)))));
    assert!(matches!(value("k=bool: false "), Some((_, OverrideValue::Bool(false)))));
    assert!(value("k=bool:yes").is_none());
    match value("general.name=str: a:b ") {
        Some((k, OverrideValue::Str(s))) => {
            assert_eq!(k, "general.name");
            assert_eq!(s, " a:b ", "a string is kept exactly as written");
        }
        _ => panic!("expected a string override"),
    }
    match value("rope.freq_base=F32: 1e6 ") {
        Some((_, OverrideValue::Float(t))) => assert_eq!(t, "1e6"),
        _ => panic!("expected a float override"),
    }
}

#[test]
fn a_malformed_override_is_refused() {
    assert!(value("no_equals_sign").is_none());
    assert!(value("k=no_colon").is_none());
    assert!(value("k=blob:1").is_none());
}

#[test]
fn signed_integers_to_their_limits() {
    let p = |s: &str| parse_i64_chars(&s.chars().collect::<Vec<char>>());
    assert_eq!(p("9223372036854775807"), Some(i64::MAX));
    assert_eq!(p("-9223372036854775808"), Some(i64::MIN));
    assert_eq!(p("9223372036854775808"), None);
    assert_eq!(p("+7"), Some(7));
    assert_eq!(p("-"), None);
    assert_eq!(p(""), None);
}
