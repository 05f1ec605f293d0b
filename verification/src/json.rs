//! JSON: a payload before it has been read as anything in particular.

use vstd::prelude::*;

verus! {

/// A [`serde_json::Value`], carried through until something reads it.
#[verifier::external_type_specification]
#[verifier::external_body]
pub struct ExValue(serde_json::Value);

/// What a JSON value holds
pub enum Json {
    Null,
    Bool(bool),
    Number(Seq<char>),
    Text(Seq<char>),
    List(Seq<Json>),
    Object(Map<Seq<char>, Json>),
}

/// What a [`serde_json::Value`] holds: the tree it is, a number as it is
/// displayed.
pub uninterp spec fn json_of(value: serde_json::Value) -> Json;

/// What an object holds under a key, where it is one and holds something.
pub open spec fn member(json: Json, key: Seq<char>) -> Option<Json> {
    match json {
        Json::Object(members) => if members.dom().contains(key) {
            Some(members[key])
        } else {
            None
        },
        _ => None,
    }
}

/// The text a value is, where it is one.
pub open spec fn as_text(json: Json) -> Option<Seq<char>> {
    match json {
        Json::Text(text) => Some(text),
        _ => None,
    }
}

/// Looks a key up with [`serde_json::Value::get`] and reads what is there with
/// [`serde_json::Value::as_str`]
///
/// The contract claims that a key is found where the value is an object that
/// holds it, and then a text where it holds a string.
#[verifier::external_body]
pub(crate) fn get_text(value: &serde_json::Value, key: &str) -> (found: Option<Option<String>>)
    ensures
        match member(json_of(*value), key@) {
            Some(json) => match as_text(json) {
                Some(text) => found is Some && found->0 is Some && found->0->0@ == text,
                None => found is Some && found->0 is None,
            },
            None => found is None,
        },
{
    value.get(key).map(|held| held.as_str().map(str::to_owned))
}

/// The text under the first of some keys under which an object holds a text.
pub open spec fn text_under(json: Json, keys: Seq<Seq<char>>) -> Option<Seq<char>>
    decreases keys.len(),
{
    if keys.len() == 0 {
        None
    } else {
        match member(json, keys[0]) {
            Some(held) if as_text(held) is Some => as_text(held),
            _ => text_under(json, keys.skip(1)),
        }
    }
}

/// Whether a value is an object with a text under a key.
pub open spec fn has_text_under(json: Json, key: Seq<char>, text: Seq<char>) -> bool {
    json is Object && json->Object_0.dom().contains(key) && json->Object_0[key] == Json::Text(text)
}

/// Whether a value is an object with any text under a key.
pub open spec fn has_any_text_under(json: Json, key: Seq<char>) -> bool {
    exists|text: Seq<char>| has_text_under(json, key, text)
}

/// The text found is the one under the first key that has one: whatever stands
/// under a key before it, so long as it is no text, and whatever stands under
/// those after it. Where no key has one, none is found.
pub proof fn the_first_key_with_a_text_is_read(json: Json, keys: Seq<Seq<char>>, i: int)
    requires
        0 <= i <= keys.len(),
        forall|k: int| 0 <= k < i ==> !has_any_text_under(json, #[trigger] keys[k]),
    ensures
        forall|text: Seq<char>|
            i < keys.len() && #[trigger] has_text_under(json, keys[i], text) ==> text_under(
                json,
                keys,
            ) == Some(text),
        i == keys.len() ==> text_under(json, keys) is None,
    decreases keys.len(),
{
    if keys.len() > 0 {
        if i == 0 {
        } else {
            assert(!has_any_text_under(json, keys[0]));
            if let Some(Json::Text(text)) = member(json, keys[0]) {
                assert(has_text_under(json, keys[0], text));
            }
            let rest = keys.skip(1);
            assert forall|k: int| 0 <= k < i - 1 implies !has_any_text_under(
                json,
                #[trigger] rest[k],
            ) by {
                assert(rest[k] == keys[k + 1]);
            }
            the_first_key_with_a_text_is_read(json, rest, i - 1);
            if i < keys.len() {
                assert(rest[i - 1] == keys[i]);
            }
        }
    }
}

/// The texts of some string slices.
pub open spec fn keys_of(keys: Seq<&'static str>) -> Seq<Seq<char>> {
    Seq::new(keys.len(), |i: int| keys[i]@)
}

/// A text that may be absent.
pub open spec fn maybe(text: Option<String>) -> Option<Seq<char>> {
    match text {
        Some(text) => Some(text@),
        None => None,
    }
}

/// The text under the first of some keys under which a value holds one.
pub fn field(value: &serde_json::Value, keys: &Vec<&'static str>) -> (text: Option<String>)
    ensures
        maybe(text) == text_under(json_of(*value), keys_of(keys@)),
{
    let mut i: usize = 0;
    assert(keys_of(keys@).skip(0) == keys_of(keys@));
    while i < keys.len()
        invariant
            i <= keys.len(),
            text_under(json_of(*value), keys_of(keys@)) == text_under(
                json_of(*value),
                keys_of(keys@).skip(i as int),
            ),
        decreases keys.len() - i,
    {
        assert(keys_of(keys@).skip(i as int)[0] == keys@[i as int]@);
        if let Some(Some(text)) = get_text(value, keys[i]) {
            return Some(text);
        }
        assert(keys_of(keys@).skip(i as int).skip(1) == keys_of(keys@).skip(i + 1));
        i += 1;
    }
    None
}

/// A JSON value over several lines, as [`serde_json::to_string_pretty`] writes
/// it.
pub uninterp spec fn pretty_json(json: Json) -> Seq<char>;

/// Writes a value with [`serde_json::to_string_pretty`]
///
/// The contract names the text, which depends on the value alone; a value that
/// is already JSON is always written.
#[verifier::external_body]
pub(crate) fn pretty(value: &serde_json::Value) -> (text: String)
    ensures
        text@ == pretty_json(json_of(*value)),
{
    serde_json::to_string_pretty(value).unwrap_or_else(|_| format!("{:?}", value))
}

} // verus!
