//! The outside functions that the pool's logic calls, each with the contract
//! that the rest of the library relies on without proof.

use vstd::arithmetic::power::pow;
use vstd::prelude::*;

verus! {

/// A concurrent map. The library keeps each one in a private field and changes
/// it only through an exclusive reference.
#[verifier::external_type_specification]
#[verifier::external_body]
#[verifier::reject_recursive_types(K)]
#[verifier::reject_recursive_types(V)]
#[verifier::reject_recursive_types(S)]
pub struct ExDashMap<K, V, S>(dashmap::DashMap<K, V, S>);

/// What a `DashMap` from texts to numbers holds.
pub uninterp spec fn number_contents(slots: dashmap::DashMap<String, usize>) -> Map<Seq<char>, usize>;

/// `DashMap::new` makes an empty map.
#[verifier::external_body]
pub(crate) fn new_numbers() -> (slots: dashmap::DashMap<String, usize>)
    ensures
        (number_contents(slots) == Map::<Seq<char>, usize>::empty()),
{
    dashmap::DashMap::new()
}

/// `DashMap::get` finds the value stored under a key that is equal to the one
/// asked for, and nothing when there is none. The guard is given back at once.
#[verifier::external_body]
pub(crate) fn number_at(slots: &dashmap::DashMap<String, usize>, key: &str) -> (found: Option<usize>)
    ensures
        found == (if number_contents(*slots).contains_key(key@) {
            Some(number_contents(*slots)[key@])
        } else {
            None
        }),
{
    slots.get(key).map(|entry| *entry)
}

/// `DashMap::insert` stores the value under the key and leaves every other
/// entry as it was.
#[verifier::external_body]
pub(crate) fn set_number(slots: &mut dashmap::DashMap<String, usize>, key: String, number: usize)
    ensures
        number_contents(*final(slots)) == number_contents(*old(slots)).insert(key@, number),
{
    slots.insert(key, number);
}

/// `DashMap::remove` drops the entry of the key, where there is one, and leaves
/// every other entry as it was.
#[verifier::external_body]
pub(crate) fn clear_number(slots: &mut dashmap::DashMap<String, usize>, key: &str)
    ensures
        number_contents(*final(slots)) == number_contents(*old(slots)).remove(key@),
{
    slots.remove(key);
}

/// The digits of the base-32 notation that ULIDs are written in.
pub open spec fn ulid_digit(digit: int) -> char {
    "0123456789ABCDEFGHJKMNPQRSTVWXYZ"@[digit]
}

/// How a ULID is written: 26 digits in base 32, the highest first.
pub open spec fn ulid_text(value: u128) -> Seq<char> {
    Seq::new(26, |i: int| ulid_digit((value as int / pow(32, (25 - i) as nat)) % 32))
}

/// `Ulid::to_string` writes a ULID.
#[verifier::external_body]
pub(crate) fn ulid_string(value: u128) -> (text: String)
    ensures
        text@ == ulid_text(value),
{
    ulid::Ulid(value).to_string()
}

/// `String::push` appends one character.
pub assume_specification[ std::string::String::push ](text: &mut std::string::String, c: char)
    ensures
        final(text)@ == old(text)@.push(c),
;

/// A JSON value. Two values are one and the same to this library where
/// `serde_json`'s own equality says so.
#[verifier::external_type_specification]
#[verifier::external_body]
pub struct ExJsonValue(serde_json::Value);

/// The members of a JSON object that are booleans. A value that is no object has
/// none.
pub uninterp spec fn json_flags(value: serde_json::Value) -> Map<Seq<char>, bool>;

/// `serde_json::Value`'s equality says whether two values are the same.
#[verifier::external_body]
pub(crate) fn json_same(one: &serde_json::Value, two: &serde_json::Value) -> (same: bool)
    ensures
        same == (*one == *two),
{
    one == two
}

/// `serde_json::Value`'s `clone` makes a value that is the same.
#[verifier::external_body]
pub(crate) fn json_copy(value: &serde_json::Value) -> (copy: serde_json::Value)
    ensures
        copy == *value,
{
    value.clone()
}

/// `serde_json::Value::get` finds a member of an object, and
/// `serde_json::Value::as_bool` reads it where it is a boolean.
#[verifier::external_body]
pub(crate) fn json_flag(value: &serde_json::Value, name: &str) -> (flag: Option<bool>)
    ensures
        flag == (if json_flags(*value).contains_key(name@) {
            Some(json_flags(*value)[name@])
        } else {
            None
        }),
{
    value.get(name).and_then(serde_json::Value::as_bool)
}

/// What `url::Url::parse` makes of a text: the address written out, or the text of
/// the error.
pub uninterp spec fn parsed_url(text: Seq<char>) -> Result<Seq<char>, Seq<char>>;

/// `url::Url::parse` reads an address. What it makes of a text depends on the text
/// alone; nothing more is claimed of it.
#[verifier::external_body]
pub(crate) fn parse_url(text: &str) -> (parsed: Result<String, String>)
    ensures
        (match parsed {
            Ok(url) => parsed_url(text@) == Ok::<Seq<char>, Seq<char>>(url@),
            Err(error) => parsed_url(text@) == Err::<Seq<char>, Seq<char>>(error@),
        }),
{
    match url::Url::parse(text) {
        Ok(url) => Ok(String::from(url)),
        Err(error) => Err(error.to_string()),
    }
}

/// The length in nanoseconds of a span of time, as `Duration::as_nanos` gives it.
pub uninterp spec fn nanos_of(span: std::time::Duration) -> u128;

/// `Duration::as_nanos` gives the length of the span in nanoseconds.
pub assume_specification[ std::time::Duration::as_nanos ](span: &std::time::Duration) -> (nanos: u128)
    ensures
        nanos == nanos_of(*span),
;

/// `Duration::from_secs` makes a span of that many seconds.
pub assume_specification[ std::time::Duration::from_secs ](secs: u64) -> (span: std::time::Duration)
    ensures
        nanos_of(span) == secs * 1_000_000_000,
;

/// `Duration::saturating_sub` makes a span that is shorter by the second one, or
/// an empty span where the second one is longer.
pub assume_specification[ std::time::Duration::saturating_sub ](
    span: std::time::Duration,
    used: std::time::Duration,
) -> (left: std::time::Duration)
    ensures
        nanos_of(left) == (if nanos_of(span) >= nanos_of(used) {
            nanos_of(span) - nanos_of(used)
        } else {
            0
        }),
;

/// How a span of that many nanoseconds is shown to people.
pub uninterp spec fn shown_span(nanos: u128) -> Seq<char>;

/// `Duration`'s `Debug` form, which depends on the span alone.
#[verifier::external_body]
pub(crate) fn duration_text(span: std::time::Duration) -> (text: String)
    ensures
        text@ == shown_span(nanos_of(span)),
{
    format!("{:?}", span)
}

} // verus!
