//! What a streamed chat-completion chunk says, read from its parsed JSON.
//!
//! Parsing is the JSON reader's job; which fields of the OpenAI chunk shape
//! are read, and what counts as absent, is decided here.
use vstd::prelude::*;
use crate::text::str_eq;

verus! {

/// A parsed JSON value. Numbers are carried without their value: nothing
/// here computes with one, and writing one out is the caller's.
pub enum Json {
    Null,
    Bool(bool),
    Num,
    Str(String),
    Arr(Vec<Json>),
    Obj(Vec<(String, Json)>),
}

/// The value of the first entry of an object named `key`.
pub open spec fn entry(fields: Seq<(String, Json)>, key: Seq<char>) -> Option<Json>
    decreases fields.len(),
{
    if fields.len() == 0 {
        None
    } else if fields[0].0@ == key {
        Some(fields[0].1)
    } else {
        entry(fields.skip(1), key)
    }
}

/// The entries of `choices[0]`, when the chunk is an object whose `choices`
/// is an array whose first item is an object.
pub open spec fn first_choice(v: Json) -> Option<Seq<(String, Json)>> {
    match v {
        Json::Obj(top) => match entry(top@, "choices"@) {
            Some(Json::Arr(items)) => if items@.len() > 0 {
                match items@[0] {
                    Json::Obj(first) => Some(first@),
                    _ => None,
                }
            } else {
                None
            },
            _ => None,
        },
        _ => None,
    }
}

/// `choices[0].finish_reason`, when it is a string.
pub open spec fn finish_reason_spec(v: Json) -> Option<Seq<char>> {
    match first_choice(v) {
        Some(first) => match entry(first, "finish_reason"@) {
            Some(Json::Str(s)) => Some(s@),
            _ => None,
        },
        None => None,
    }
}

/// `choices[0].delta.content`, when it is a string.
pub open spec fn delta_text_spec(v: Json) -> Option<Seq<char>> {
    match first_choice(v) {
        Some(first) => match entry(first, "delta"@) {
            Some(Json::Obj(fields)) => match entry(fields@, "content"@) {
                Some(Json::Str(s)) => Some(s@),
                _ => None,
            },
            _ => None,
        },
        None => None,
    }
}

/// Where the first entry named `key` is.
fn find_entry(fields: &Vec<(String, Json)>, key: &str) -> (r: Option<usize>)
    ensures
        match r {
            Some(i) => i < fields@.len() && entry(fields@, key@) == Some(fields@[i as int].1),
            None => entry(fields@, key@) is None,
        },
{
    let mut i: usize = 0;
    assert(fields@.skip(0) =~= fields@);
    while i < fields.len()
        invariant
            i <= fields@.len(),
            entry(fields@.skip(i as int), key@) == entry(fields@, key@),
        decreases fields.len() - i,
    {
        let ghost rest = fields@.skip(i as int);
        assert(rest[0] == fields@[i as int]);
        assert(rest.skip(1) =~= fields@.skip(i + 1));
        if str_eq(fields[i].0.as_str(), key) {
            return Some(i);
        }
        i = i + 1;
    }
    None
}

/// The entries of `choices[0]`.
fn first_choice_of(v: &Json) -> (r: Option<&Vec<(String, Json)>>)
    ensures
        match first_choice(*v) {
            Some(first) => r matches Some(f) && f@ == first,
            None => r is None,
        },
{
    match v {
        Json::Obj(top) => match find_entry(top, "choices") {
            Some(i) => match &top[i].1 {
                Json::Arr(items) => if items.len() > 0 {
                    match &items[0] {
                        Json::Obj(first) => Some(first),
                        _ => None,
                    }
                } else {
                    None
                },
                _ => None,
            },
            None => None,
        },
        _ => None,
    }
}

/// Why a stream ended, from the chunk that says so. A chunk of a running
/// stream carries `null` there, which is no reason.
pub fn finish_reason(chunk: &Json) -> (r: Option<String>)
    ensures
        match finish_reason_spec(*chunk) {
            Some(s) => r matches Some(t) && t@ == s,
            None => r is None,
        },
{
    match first_choice_of(chunk) {
        Some(first) => match find_entry(first, "finish_reason") {
            Some(i) => match &first[i].1 {
                Json::Str(s) => Some(s.clone()),
                _ => None,
            },
            None => None,
        },
        None => None,
    }
}

/// The text a streamed chunk adds. A chunk that adds none (the role, the
/// finish) is not an error: it has no text.
pub fn delta_text(chunk: &Json) -> (r: Option<String>)
    ensures
        match delta_text_spec(*chunk) {
            Some(s) => r matches Some(t) && t@ == s,
            None => r is None,
        },
{
    match first_choice_of(chunk) {
        Some(first) => match find_entry(first, "delta") {
            Some(i) => match &first[i].1 {
                Json::Obj(fields) => match find_entry(fields, "content") {
                    Some(j) => match &fields[j].1 {
                        Json::Str(s) => Some(s.clone()),
                        _ => None,
                    },
                    None => None,
                },
                _ => None,
            },
            None => None,
        },
        None => None,
    }
}

/// Where the first entry named `key` stands.
pub open spec fn entry_index(fields: Seq<(String, Json)>, key: Seq<char>) -> Option<int>
    decreases fields.len(),
{
    if fields.len() == 0 {
        None
    } else if fields[0].0@ == key {
        Some(0)
    } else {
        match entry_index(fields.skip(1), key) {
            Some(i) => Some(i + 1),
            None => None,
        }
    }
}

proof fn lemma_entry_index_at(fields: Seq<(String, Json)>, key: Seq<char>, k: int)
    requires
        0 <= k <= fields.len(),
        forall|j: int| 0 <= j < k ==> fields[j].0@ != key,
        k == fields.len() || fields[k].0@ == key,
    ensures
        entry_index(fields, key) == (if k == fields.len() { None::<int> } else { Some(k) }),
    decreases k,
{
    if k > 0 {
        let rest = fields.skip(1);
        assert forall|j: int| 0 <= j < k - 1 implies rest[j].0@ != key by {
            assert(rest[j] == fields[j + 1]);
        }
        if k < fields.len() {
            assert(rest[k - 1] == fields[k]);
        }
        lemma_entry_index_at(rest, key, k - 1);
    }
}

/// A scalar of a flat object, as `chaos status` prints it.
pub enum Field {
    /// A string as it is, a boolean as `true` or `false`, null as `null`.
    Text(String),
    /// A number, by the index of its entry: writing it out is the caller's.
    Number(usize),
}

pub enum FieldModel {
    Text(Seq<char>),
    Number(int),
}

impl Field {
    pub open spec fn model(&self) -> FieldModel {
        match self {
            Field::Text(t) => FieldModel::Text(t@),
            Field::Number(i) => FieldModel::Number(*i as int),
        }
    }
}

/// The first entry named `key` of an object, when it is a scalar. Nothing
/// for a value that is not an object, a missing key, or an array or object
/// value, which is no scalar and is not pretended to be one.
pub open spec fn field_spec(v: Json, key: Seq<char>) -> Option<FieldModel> {
    match v {
        Json::Obj(fields) => match entry_index(fields@, key) {
            Some(i) => match fields@[i].1 {
                Json::Str(s) => Some(FieldModel::Text(s@)),
                Json::Num => Some(FieldModel::Number(i)),
                Json::Bool(b) => Some(FieldModel::Text(if b { "true"@ } else { "false"@ })),
                Json::Null => Some(FieldModel::Text("null"@)),
                _ => None,
            },
            None => None,
        },
        _ => None,
    }
}

pub fn field(v: &Json, key: &str) -> (r: Option<Field>)
    ensures
        match field_spec(*v, key@) {
            Some(m) => r matches Some(f) && f.model() == m,
            None => r is None,
        },
{
    let fields = match v {
        Json::Obj(fields) => fields,
        _ => return None,
    };
    let mut i: usize = 0;
    while i < fields.len()
        invariant
            i <= fields@.len(),
            forall|j: int| 0 <= j < i ==> fields@[j].0@ != key@,
        ensures
            i <= fields@.len(),
            forall|j: int| 0 <= j < i ==> fields@[j].0@ != key@,
            i == fields@.len() || fields@[i as int].0@ == key@,
        decreases fields.len() - i,
    {
        if str_eq(fields[i].0.as_str(), key) {
            break;
        }
        i = i + 1;
    }
    proof {
        lemma_entry_index_at(fields@, key@, i as int);
    }
    if i == fields.len() {
        return None;
    }
    proof {
        reveal_strlit("true");
        reveal_strlit("false");
        reveal_strlit("null");
    }
    match &fields[i].1 {
        Json::Str(s) => Some(Field::Text(s.clone())),
        Json::Num => Some(Field::Number(i)),
        Json::Bool(b) => Some(Field::Text(if *b { String::from_str("true") } else { String::from_str("false") })),
        Json::Null => Some(Field::Text(String::from_str("null"))),
        _ => None,
    }
}

} // verus!
