use lib::chunk::{delta_text, field, finish_reason, Field, Json};

fn obj(entries: Vec<(&str, Json)>) -> Json {
    Json::Obj(entries.into_iter().map(|(k, v)| (k.to_string(), v)).collect())
}

fn s(t: &str) -> Json {
    Json::Str(t.to_string())
}

fn chunk(choice: Json) -> Json {
    obj(vec![("choices", Json::Arr(vec![choice]))])
}

#[test]
fn a_streamed_chunk_yields_its_text_and_silence_is_not_an_error() {
    let with = chunk(obj(vec![("delta", obj(vec![("content", s("Hel"))])), ("index", Json::Num)]));
    assert_eq!(delta_text(&with).as_deref(), Some("Hel"));
    let role = chunk(obj(vec![("delta", obj(vec![("role", s("assistant"))]))]));
    assert_eq!(delta_text(&role), None);
    let stop = chunk(obj(vec![("delta", obj(vec![])), ("finish_reason", s("stop"))]));
    assert_eq!(delta_text(&stop), None);
}

#[test]
fn the_finish_reason_is_read_and_a_running_chunk_has_none() {
    let running = chunk(obj(vec![("delta", obj(vec![("content", s(" Paris"))])), ("finish_reason", Json::Null)]));
    assert_eq!(finish_reason(&running), None, "a null is not a reason");
    assert_eq!(delta_text(&running).as_deref(), Some(" Paris"));
    let capped = chunk(obj(vec![("delta", obj(vec![])), ("finish_reason", s("length"))]));
    assert_eq!(finish_reason(&capped).as_deref(), Some("length"));
    let done = chunk(obj(vec![("delta", obj(vec![])), ("finish_reason", s("stop"))]));
    assert_eq!(finish_reason(&done).as_deref(), Some("stop"));
    assert_eq!(finish_reason(&obj(vec![("choices", Json::Arr(vec![]))])), None);
}

#[test]
fn only_the_first_choice_and_the_first_entry_count() {
    let two = obj(vec![(
        "choices",
        Json::Arr(vec![
            obj(vec![("delta", obj(vec![("content", s("a")), ("content", s("b"))]))]),
            obj(vec![("delta", obj(vec![("content", s("c"))]))]),
        ]),
    )]);
    assert_eq!(delta_text(&two).as_deref(), Some("a"));
    assert_eq!(delta_text(&s("[DONE]")), None);
    assert_eq!(delta_text(&obj(vec![("choices", obj(vec![]))])), None);
    assert_eq!(finish_reason(&Json::Arr(vec![])), None);
    assert_eq!(delta_text(&chunk(Json::Bool(true))), None);
}

fn text_of(v: &Json, key: &str) -> Option<String> {
    match field(v, key) {
        Some(Field::Text(t)) => Some(t),
        _ => None,
    }
}

fn number_at(v: &Json, key: &str) -> Option<usize> {
    match field(v, key) {
        Some(Field::Number(i)) => Some(i),
        _ => None,
    }
}

#[test]
fn status_fields_are_read_from_the_real_shape() {
    let json = obj(vec![
        ("status", s("ok")),
        ("model", s("qwen3-4b")),
        ("context_limit", Json::Num),
        ("context_ceiling", Json::Num),
        ("route", s("http://192.168.1.20:8080")),
        ("reachable", Json::Bool(true)),
        ("uptime_seconds", Json::Num),
        ("verified_architectures", Json::Num),
        ("last_generation", obj(vec![("tokens", Json::Num), ("tokens_per_second", Json::Num)])),
    ]);
    assert_eq!(text_of(&json, "model").as_deref(), Some("qwen3-4b"));
    assert_eq!(text_of(&json, "status").as_deref(), Some("ok"));
    assert_eq!(text_of(&json, "reachable").as_deref(), Some("true"));
    assert_eq!(number_at(&json, "uptime_seconds"), Some(6));
    assert_eq!(number_at(&json, "context_limit"), Some(2));
    assert_eq!(text_of(&json, "route").as_deref(), Some("http://192.168.1.20:8080"));
    // A nested object is not a scalar and is not pretended to be one.
    assert!(field(&json, "last_generation").is_none());
    assert!(field(&json, "absent").is_none());
    assert!(field(&s("not json at all"), "model").is_none());
    assert_eq!(text_of(&obj(vec![("x", Json::Null)]), "x").as_deref(), Some("null"));
    assert_eq!(text_of(&obj(vec![("x", Json::Bool(false))]), "x").as_deref(), Some("false"));
}
