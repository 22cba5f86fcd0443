use lib::writer::TokenWriter;

#[test]
fn a_character_split_across_tokens_is_written_once_whole() {
    let mut w = TokenWriter::new();
    let emoji = "😀".as_bytes();
    assert_eq!(w.push(&emoji[..1]), "");
    assert_eq!(w.push(&emoji[1..3]), "");
    assert_eq!(w.push(&emoji[3..]), "😀");
    assert_eq!(w.finish(), "", "nothing is left over");
}

#[test]
fn complete_text_is_written_at_once_and_a_trailing_fragment_waits() {
    let mut w = TokenWriter::new();
    let mut bytes = b"ab".to_vec();
    bytes.extend_from_slice(&"é".as_bytes()[..1]);
    assert_eq!(w.push(&bytes), "ab");
    assert_eq!(w.push(&"é".as_bytes()[1..]), "é");
}

#[test]
fn malformed_bytes_are_shown_lossily_at_the_end() {
    let mut w = TokenWriter::new();
    assert_eq!(w.push(&[0xff]), "");
    assert_eq!(w.push(b"x"), "", "nothing after an invalid byte can be written");
    assert_eq!(w.finish(), "\u{fffd}x");
    assert_eq!(w.finish(), "");
}

#[test]
fn control_tokens_and_colour() {
    let mut w = TokenWriter::new();
    assert_eq!(w.push_visible(b"hi", None, false, true), "\x1b[32mhi");
    assert_eq!(w.push_visible(b"!", None, false, true), "!", "the colour is switched on once");
    assert_eq!(
        w.push_visible(b"", Some("<|im_end|>"), true, true),
        "\x1b[0m<|im_end|>\x1b[32m"
    );
    assert_eq!(w.push_visible(b"", Some("<|im_end|>"), true, false), "<|im_end|>");
    assert_eq!(
        w.push_visible(b"ok", Some("<|im_end|>"), false, false),
        "ok",
        "a control token is written as its bytes unless asked for"
    );
}
