//! JSON values: what one holds, and the calls into `serde_json` that read it,
//! build it, print it and parse it.

use serde_json::Value;
use vstd::prelude::*;

verus! {

/// `serde_json`'s value. What it holds is [`json`].
#[verifier::external_type_specification]
#[verifier::external_body]
pub struct ExValue(serde_json::Value);

/// `serde_json`'s error, which a text that is not JSON gives.
#[verifier::external_type_specification]
#[verifier::external_body]
pub struct ExError(serde_json::Error);

/// What a JSON number holds. One that is neither a `u64` nor a negative `i64` is
/// told by the text it prints as.
pub enum Number {
    Unsigned(u64),
    Negative(i64),
    Fraction(Seq<char>),
}

/// What a JSON value holds.
pub enum Json {
    Null,
    Bool(bool),
    Number(Number),
    Text(Seq<char>),
    Array(Seq<Json>),
    Object(Map<Seq<char>, Json>),
}

/// What a `serde_json::Value` holds.
pub uninterp spec fn json(v: Value) -> Json;

/// The value that a text is the JSON of, as `serde_json::from_str` reads it; none
/// where it gives an error.
pub uninterp spec fn json_parse(text: Seq<char>) -> Option<Json>;

/// The text that `serde_json` prints a value as, in its compact form.
pub uninterp spec fn json_text(j: Json) -> Seq<char>;

/// The member of an object under this key. Anything but an object has none.
pub open spec fn member(j: Json, key: Seq<char>) -> Option<Json> {
    match j {
        Json::Object(m) => if m.dom().contains(key) {
            Some(m[key])
        } else {
            None
        },
        _ => None,
    }
}

/// The text that a member is, if there is one and it is a text.
pub open spec fn text_member(j: Json, key: Seq<char>) -> Option<Seq<char>> {
    match member(j, key) {
        Some(Json::Text(s)) => Some(s),
        _ => None,
    }
}

/// The unsigned number that a member is, if there is one and it is that.
pub open spec fn u64_member(j: Json, key: Seq<char>) -> Option<u64> {
    match member(j, key) {
        Some(Json::Number(Number::Unsigned(n))) => Some(n),
        _ => None,
    }
}

/// A number that `i64` holds.
pub open spec fn i64_of(n: Number) -> Option<i64> {
    match n {
        Number::Unsigned(u) => if u <= i64::MAX {
            Some(u as i64)
        } else {
            None
        },
        Number::Negative(i) => Some(i),
        Number::Fraction(_) => None,
    }
}

/// An integer as a JSON number.
pub open spec fn integer(n: int) -> Json {
    if n < 0 {
        Json::Number(Number::Negative(n as i64))
    } else {
        Json::Number(Number::Unsigned(n as u64))
    }
}

/// What each value of a list holds.
pub open spec fn jsons(v: Seq<Value>) -> Seq<Json> {
    v.map_values(|x: Value| json(x))
}

/// What each member of a list holds: its key, and what is under it.
pub open spec fn members_of(v: Seq<(&'static str, Value)>) -> Seq<(Seq<char>, Json)> {
    v.map_values(|m: (&'static str, Value)| (m.0@, json(m.1)))
}

/// The object that has these members. Of two under one key, it has the later.
pub open spec fn object_of(members: Seq<(Seq<char>, Json)>) -> Map<Seq<char>, Json>
    decreases members.len(),
{
    if members.len() == 0 {
        Map::empty()
    } else {
        object_of(members.drop_last()).insert(members.last().0, members.last().1)
    }
}

/// The compact text of an object whose members are written in this order.
pub open spec fn members_text(members: Seq<(Seq<char>, Json)>) -> Seq<char> {
    "{"@ + crate::text::joined(
        members.map_values(
            |m: (Seq<char>, Json)| json_text(Json::Text(m.0)) + ":"@ + json_text(m.1),
        ),
        ","@,
    ) + "}"@
}

/// Whether a value nests at most this deep, and holds no fraction. `serde_json`
/// reads back what it prints of such a value; a fraction it may read back in its
/// last digit otherwise, and what nests deeper than it can follow not at all.
pub open spec fn reads_back(j: Json, levels: nat) -> bool
    decreases levels,
{
    match j {
        Json::Array(s) => levels > 0 && forall|i: int|
            0 <= i < s.len() ==> reads_back(#[trigger] s[i], (levels - 1) as nat),
        Json::Object(m) => levels > 0 && forall|k: Seq<char>|
            m.dom().contains(k) ==> reads_back(#[trigger] m[k], (levels - 1) as nat),
        Json::Number(Number::Fraction(_)) => false,
        _ => true,
    }
}

/// How deep a value can nest for `serde_json` to read it.
pub open spec fn depth_limit() -> nat {
    127
}

/// What nests at most this deep nests at most deeper.
pub proof fn lemma_reads_back_deeper(j: Json, levels: nat, more: nat)
    requires
        reads_back(j, levels),
        levels <= more,
    ensures
        reads_back(j, more),
    decreases levels,
{
    match j {
        Json::Array(s) => {
            assert forall|i: int| 0 <= i < s.len() implies reads_back(
                #[trigger] s[i],
                (more - 1) as nat,
            ) by {
                lemma_reads_back_deeper(s[i], (levels - 1) as nat, (more - 1) as nat);
            }
        },
        Json::Object(m) => {
            assert forall|k: Seq<char>| m.dom().contains(k) implies reads_back(
                #[trigger] m[k],
                (more - 1) as nat,
            ) by {
                lemma_reads_back_deeper(m[k], (levels - 1) as nat, (more - 1) as nat);
            }
        },
        _ => {},
    }
}

// ── reading ──────────────────────────────────────────────────────────────────

/// `Value::get` with a key: the member of an object, and nothing of any other value.
#[verifier::external_body]
pub(crate) fn get<'a>(v: &'a Value, key: &str) -> (r: Option<&'a Value>)
    ensures
        match r {
            Some(x) => member(json(*v), key@) == Some(json(*x)),
            None => member(json(*v), key@) is None,
        },
{
    v.get(key)
}

/// `Value::is_object`: whether a value is an object.
#[verifier::external_body]
pub(crate) fn is_object(v: &Value) -> (r: bool)
    ensures
        r == (json(*v) is Object),
{
    v.is_object()
}

/// `Value::is_null`: whether a value is null.
#[verifier::external_body]
pub(crate) fn is_null(v: &Value) -> (r: bool)
    ensures
        r == (json(*v) is Null),
{
    v.is_null()
}

/// `Value::as_bool`: the boolean that a value is.
#[verifier::external_body]
pub(crate) fn as_bool(v: &Value) -> (r: Option<bool>)
    ensures
        r == match json(*v) {
            Json::Bool(b) => Some(b),
            _ => None,
        },
{
    v.as_bool()
}

/// `Value::as_str`: the text that a value is.
#[verifier::external_body]
pub(crate) fn as_str<'a>(v: &'a Value) -> (r: Option<&'a str>)
    ensures
        match r {
            Some(s) => json(*v) == Json::Text(s@),
            None => !(json(*v) is Text),
        },
{
    v.as_str()
}

/// `Value::as_u64`: the number that a value is, if `u64` holds it.
#[verifier::external_body]
pub(crate) fn as_u64(v: &Value) -> (r: Option<u64>)
    ensures
        r == match json(*v) {
            Json::Number(Number::Unsigned(n)) => Some(n),
            _ => None,
        },
{
    v.as_u64()
}

/// `Value::as_i64`: the number that a value is, if `i64` holds it.
#[verifier::external_body]
pub(crate) fn as_i64(v: &Value) -> (r: Option<i64>)
    ensures
        r == match json(*v) {
            Json::Number(n) => i64_of(n),
            _ => None,
        },
{
    v.as_i64()
}

/// `Value::as_array`: the values of an array, in order.
#[verifier::external_body]
pub(crate) fn as_array<'a>(v: &'a Value) -> (r: Option<&'a Vec<Value>>)
    ensures
        match r {
            Some(a) => json(*v) == Json::Array(jsons(a@)),
            None => !(json(*v) is Array),
        },
{
    v.as_array()
}

/// `Value`'s `clone`: a value that holds the same.
#[verifier::external_body]
pub(crate) fn copy(v: &Value) -> (r: Value)
    ensures
        json(r) == json(*v),
{
    v.clone()
}

pub(crate) fn get_str<'a>(v: &'a Value, key: &str) -> (r: Option<&'a str>)
    ensures
        match r {
            Some(s) => text_member(json(*v), key@) == Some(s@),
            None => text_member(json(*v), key@) is None,
        },
{
    match get(v, key) {
        Some(x) => as_str(x),
        None => None,
    }
}

pub(crate) fn get_u64(v: &Value, key: &str) -> (r: Option<u64>)
    ensures
        r == u64_member(json(*v), key@),
{
    match get(v, key) {
        Some(x) => as_u64(x),
        None => None,
    }
}

// ── building ─────────────────────────────────────────────────────────────────

/// `Value::Null`.
#[verifier::external_body]
pub(crate) fn null() -> (r: Value)
    ensures
        json(r) == Json::Null,
{
    Value::Null
}

/// `Value::from` a boolean.
#[verifier::external_body]
pub(crate) fn boolean(b: bool) -> (r: Value)
    ensures
        json(r) == Json::Bool(b),
{
    Value::from(b)
}

/// `Value::from` a `u64`.
#[verifier::external_body]
pub(crate) fn unsigned(n: u64) -> (r: Value)
    ensures
        json(r) == Json::Number(Number::Unsigned(n)),
{
    Value::from(n)
}

/// `Value::from` an `i32`: what it holds has a sign only below zero.
#[verifier::external_body]
pub(crate) fn signed(n: i32) -> (r: Value)
    ensures
        json(r) == integer(n as int),
{
    Value::from(n)
}

/// `Value::from` a text.
#[verifier::external_body]
pub(crate) fn string(s: &str) -> (r: Value)
    ensures
        json(r) == Json::Text(s@),
{
    Value::from(s)
}

/// `Value::Array` of the values given.
#[verifier::external_body]
pub(crate) fn array(items: Vec<Value>) -> (r: Value)
    ensures
        json(r) == Json::Array(jsons(items@)),
{
    Value::Array(items)
}

/// `Value::Object` of `serde_json::Map::new`: an object without members.
#[verifier::external_body]
pub(crate) fn object() -> (r: Value)
    ensures
        json(r) == Json::Object(Map::empty()),
{
    Value::Object(serde_json::Map::new())
}

/// Assignment to an index of a `Value`: on an object, the member under that key
/// becomes this one, and no other changes.
#[verifier::external_body]
pub(crate) fn set(v: &mut Value, key: &str, x: Value)
    requires
        json(*old(v)) is Object,
    ensures
        json(*final(v)) == Json::Object(json(*old(v))->Object_0.insert(key@, json(x))),
{
    v[key] = x;
}

pub(crate) fn set_opt_str(v: &mut Value, key: &str, s: &Option<String>)
    requires
        json(*old(v)) is Object,
    ensures
        json(*final(v)) == match *s {
            Some(t) => Json::Object(json(*old(v))->Object_0.insert(key@, Json::Text(t@))),
            None => json(*old(v)),
        },
{
    match s {
        Some(t) => set(v, key, string(t.as_str())),
        None => {},
    }
}

// ── text ─────────────────────────────────────────────────────────────────────

/// `serde_json::from_str` into a `Value`: the value that a text is the JSON of, or
/// an error.
#[verifier::external_body]
pub(crate) fn parse(text: &str) -> (r: Result<Value, serde_json::Error>)
    ensures
        match r {
            Ok(v) => json_parse(text@) == Some(json(v)),
            Err(_) => json_parse(text@) is None,
        },
{
    serde_json::from_str(text)
}

/// `Value`'s `Display`: the compact text of a value. It takes one line, since a
/// line feed inside a text is escaped; no blank stands at either end of it; and it
/// reads back to what was printed.
#[verifier::external_body]
pub(crate) fn print(v: &Value) -> (r: String)
    ensures
        r@ == json_text(json(*v)),
        r@.len() > 0,
        !crate::text::is_white(r@.first()),
        !crate::text::is_white(r@.last()),
        !r@.contains('\n'),
        reads_back(json(*v), depth_limit()) ==> json_parse(r@) == Some(json(*v)),
{
    v.to_string()
}

/// `Serializer::collect_map` of a `serde_json::Serializer`: the compact text of an
/// object, with its members in the order given. It takes one line, and reads back to
/// that object where each of its members does.
#[verifier::external_body]
pub(crate) fn print_members(members: Vec<(&'static str, Value)>) -> (r: String)
    ensures
        r@ == members_text(members_of(members@)),
        !r@.contains('\n'),
        (forall|i: int|
            0 <= i < members@.len() ==> reads_back(
                json((#[trigger] members@[i]).1),
                (depth_limit() - 1) as nat,
            )) ==> json_parse(r@) == Some(Json::Object(object_of(members_of(members@)))),
{
    let mut out: Vec<u8> = Vec::new();
    serde::Serializer::collect_map(&mut serde_json::Serializer::new(&mut out), members).unwrap();
    String::from_utf8(out).unwrap()
}

// ── what reading a value promises ────────────────────────────────────────────

/// The member of an object is what is under its key, whatever else the object has; a
/// text or a number is read as such only where it is one, and then it is that one.
pub proof fn law_a_member_is_what_is_under_its_key(
    m: Map<Seq<char>, Json>,
    key: Seq<char>,
    s: Seq<char>,
    n: u64,
    j: Json,
)
    ensures
        m.dom().contains(key) ==> member(Json::Object(m), key) == Some(m[key]),
        !m.dom().contains(key) ==> member(Json::Object(m), key) is None,
        !(j is Object) ==> member(j, key) is None,
        text_member(Json::Object(m), key) == Some(s) <==> m.dom().contains(key) && m[key]
            == Json::Text(s),
        u64_member(Json::Object(m), key) == Some(n) <==> m.dom().contains(key) && m[key]
            == Json::Number(Number::Unsigned(n)),
{
}

/// An integer is read back as it was, whatever its sign.
pub proof fn law_an_integer_goes_and_comes_back(n: i64)
    ensures
        integer(n as int) matches Json::Number(x) && i64_of(x) == Some(n),
        n >= 0 ==> integer(n as int) == Json::Number(Number::Unsigned(n as u64)),
        i64_of(Number::Unsigned(u64::MAX)) is None,
{
}

/// An object has each member that is put in it, and of two under one key the later.
pub proof fn law_an_object_has_its_members(
    members: Seq<(Seq<char>, Json)>,
    key: Seq<char>,
    value: Json,
    other: Seq<char>,
)
    ensures
        ({
            let before = object_of(members);
            let after = object_of(members.push((key, value)));
            &&& object_of(Seq::empty()) == Map::<Seq<char>, Json>::empty()
            &&& after.dom().contains(key) && after[key] == value
            &&& other != key ==> (after.dom().contains(other) <==> before.dom().contains(other))
            &&& other != key && before.dom().contains(other) ==> after[other] == before[other]
        }),
{
    assert(members.push((key, value)).drop_last() =~= members);
}

/// The text of an object has each of its members, in their order: its key, a colon and
/// its value, with a comma between two and nothing else.
pub proof fn law_each_member_is_written(
    members: Seq<(Seq<char>, Json)>,
    key: Seq<char>,
    value: Json,
)
    ensures
        members_text(Seq::empty()) == seq!['{', '}'],
        members_text(seq![(key, value)]) == seq!['{'] + json_text(Json::Text(key)) + seq![':']
            + json_text(value) + seq!['}'],
        members.len() > 0 ==> members_text(members.push((key, value))) == members_text(
            members,
        ).drop_last() + seq![','] + json_text(Json::Text(key)) + seq![':'] + json_text(value)
            + seq!['}'],
{
    reveal_strlit("{");
    reveal_strlit("}");
    reveal_strlit(":");
    reveal_strlit(",");
    assert("{"@ =~= seq!['{'] && "}"@ =~= seq!['}'] && ":"@ =~= seq![':'] && ","@ =~= seq![',']);
    let f = |m: (Seq<char>, Json)| json_text(Json::Text(m.0)) + ":"@ + json_text(m.1);
    let none = Seq::<(Seq<char>, Json)>::empty();
    let one = f((key, value));
    crate::text::law_joining_puts_every_piece(members.map_values(f), seq![one], one, ","@);
    assert(none.map_values(f) =~= Seq::empty());
    assert(members_text(none) =~= seq!['{', '}']);
    assert(seq![(key, value)].map_values(f) =~= seq![one]);
    assert(members_text(seq![(key, value)]) =~= seq!['{'] + json_text(Json::Text(key)) + seq![':']
        + json_text(value) + seq!['}']);
    if members.len() > 0 {
        assert(members.push((key, value)).map_values(f) =~= members.map_values(f) + seq![one]);
        assert(members_text(members).drop_last() =~= "{"@ + crate::text::joined(
            members.map_values(f),
            ","@,
        ));
        assert(members_text(members.push((key, value))) =~= members_text(members).drop_last()
            + seq![','] + json_text(Json::Text(key)) + seq![':'] + json_text(value) + seq!['}']);
    }
}

} // verus!
