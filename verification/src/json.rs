//! JSON values: reading and writing them as text, and looking into them.
use vstd::prelude::*;

use crate::text;

verus! {

/// A JSON value. The members of an object stand in the order in which they are listed.
#[derive(Debug)]
pub enum Json {
    Null,
    Bool(bool),
    /// A number by its text; `whole` is its value where that is a whole number below 2^64.
    Number { whole: Option<u64>, text: String },
    Text(String),
    Array(Vec<Json>),
    Object(Vec<(String, Json)>),
}

/// What a JSON value holds.
#[verifier::ext_equal]
pub enum JsonView {
    Null,
    Bool(bool),
    Number { whole: Option<u64>, text: Seq<char> },
    Text(Seq<char>),
    Array(Seq<JsonView>),
    Object(Seq<(Seq<char>, JsonView)>),
}

impl Json {
    /// What the value holds.
    pub open spec fn tree(&self) -> JsonView
        decreases self,
    {
        match self {
            Json::Null => JsonView::Null,
            Json::Bool(b) => JsonView::Bool(*b),
            Json::Number { whole, text } => JsonView::Number { whole: *whole, text: text@ },
            Json::Text(s) => JsonView::Text(s@),
            Json::Array(items) => JsonView::Array(
                Seq::new(
                    items@.len(),
                    |i: int|
                        if 0 <= i < items@.len() {
                            items@[i].tree()
                        } else {
                            JsonView::Null
                        },
                ),
            ),
            Json::Object(members) => JsonView::Object(
                Seq::new(
                    members@.len(),
                    |i: int|
                        if 0 <= i < members@.len() {
                            (members@[i].0@, members@[i].1.tree())
                        } else {
                            (Seq::<char>::empty(), JsonView::Null)
                        },
                ),
            ),
        }
    }
}

/// What some values hold.
pub open spec fn trees(items: Seq<Json>) -> Seq<JsonView> {
    items.map_values(|j: Json| j.tree())
}

/// What some members hold.
pub open spec fn member_trees(members: Seq<(String, Json)>) -> Seq<(Seq<char>, JsonView)> {
    members.map_values(|m: (String, Json)| (m.0@, m.1.tree()))
}

/// What a value holds, where there is one.
pub open spec fn opt_tree(j: Option<&Json>) -> Option<JsonView> {
    match j {
        Some(j) => Some(j.tree()),
        None => None,
    }
}

/// What an array holds.
pub broadcast proof fn lemma_array_tree(items: Vec<Json>)
    ensures
        #[trigger] Json::Array(items).tree() == JsonView::Array(trees(items@)),
{
    reveal_with_fuel(Json::tree, 2);
    assert(Json::Array(items).tree()->Array_0 =~= trees(items@));
}

/// What an object holds.
pub broadcast proof fn lemma_object_tree(members: Vec<(String, Json)>)
    ensures
        #[trigger] Json::Object(members).tree() == JsonView::Object(member_trees(members@)),
{
    reveal_with_fuel(Json::tree, 2);
    assert(Json::Object(members).tree()->Object_0 =~= member_trees(members@));
}

// ---------------------------------------------------------------------------------------------
// Looking into a value
// ---------------------------------------------------------------------------------------------

/// The value of the first member with this name.
pub open spec fn member(members: Seq<(Seq<char>, JsonView)>, key: Seq<char>) -> Option<JsonView>
    decreases members.len(),
{
    if members.len() == 0 {
        None
    } else if members[0].0 == key {
        Some(members[0].1)
    } else {
        member(members.drop_first(), key)
    }
}

/// The member of an object with this name.
pub open spec fn field(v: JsonView, key: Seq<char>) -> Option<JsonView> {
    match v {
        JsonView::Object(members) => member(members, key),
        _ => None,
    }
}

/// The member with this name of a value that may be missing.
pub open spec fn opt_field(v: Option<JsonView>, key: Seq<char>) -> Option<JsonView> {
    match v {
        Some(v) => field(v, key),
        None => None,
    }
}

/// The item of an array at a position, of a value that may be missing.
pub open spec fn opt_item(v: Option<JsonView>, i: int) -> Option<JsonView> {
    match v {
        Some(JsonView::Array(items)) => if 0 <= i < items.len() {
            Some(items[i])
        } else {
            None
        },
        _ => None,
    }
}

/// What stands under `0` in a value that may be missing: the first item of an array, or the member
/// of an object with that name.
pub open spec fn opt_zeroth(v: Option<JsonView>) -> Option<JsonView> {
    match v {
        Some(JsonView::Array(items)) => opt_item(v, 0),
        _ => opt_field(v, "0"@),
    }
}

/// The text of a value that is one.
pub open spec fn opt_text(v: Option<JsonView>) -> Option<Seq<char>> {
    match v {
        Some(JsonView::Text(s)) => Some(s),
        _ => None,
    }
}

/// The items of a value that is an array.
pub open spec fn opt_items(v: Option<JsonView>) -> Option<Seq<JsonView>> {
    match v {
        Some(JsonView::Array(items)) => Some(items),
        _ => None,
    }
}

/// The value of a whole number below 2^64.
pub open spec fn opt_whole(v: Option<JsonView>) -> Option<u64> {
    match v {
        Some(JsonView::Number { whole, .. }) => whole,
        _ => None,
    }
}

/// Whether a value is the truth value `true`.
pub open spec fn is_true(v: Option<JsonView>) -> bool {
    v == Some(JsonView::Bool(true))
}

/// The text, where there is one, of a string slice.
pub open spec fn opt_str(s: Option<&str>) -> Option<Seq<char>> {
    match s {
        Some(s) => Some(s@),
        None => None,
    }
}

/// The member of an object with this name.
pub fn get<'a>(v: Option<&'a Json>, key: &str) -> (r: Option<&'a Json>)
    ensures
        opt_tree(r) == opt_field(opt_tree(v), key@),
{
    match v {
        Some(Json::Object(members)) => {
            broadcast use lemma_object_tree;

            let ghost all = member_trees(members@);
            let wanted = key.to_string();
            assert(all.skip(0) =~= all);
            for i in 0..members.len()
                invariant
                    all == member_trees(members@),
                    wanted@ == key@,
                    opt_tree(v) == Some(JsonView::Object(all)),
                    member(all, key@) == member(all.skip(i as int), key@),
            {
                assert(all.skip(i as int)[0] == (members@[i as int].0@, members@[i as int].1.tree()));
                if members[i].0 == wanted {
                    return Some(&members[i].1);
                }
                assert(all.skip(i as int).drop_first() =~= all.skip(i + 1));
            }
            assert(all.skip(all.len() as int) =~= Seq::empty());
            None
        },
        _ => None,
    }
}

/// The item of an array at a position.
pub fn item<'a>(v: Option<&'a Json>, i: usize) -> (r: Option<&'a Json>)
    ensures
        opt_tree(r) == opt_item(opt_tree(v), i as int),
{
    broadcast use lemma_array_tree;

    match v {
        Some(Json::Array(items)) => {
            if i < items.len() {
                Some(&items[i])
            } else {
                None
            }
        },
        _ => None,
    }
}

/// What stands under `0` in a value.
pub fn zeroth<'a>(v: Option<&'a Json>) -> (r: Option<&'a Json>)
    ensures
        opt_tree(r) == opt_zeroth(opt_tree(v)),
{
    match v {
        Some(Json::Array(_)) => item(v, 0),
        _ => get(v, "0"),
    }
}

/// The text of a value that is one.
pub fn as_str<'a>(v: Option<&'a Json>) -> (r: Option<&'a str>)
    ensures
        opt_str(r) == opt_text(opt_tree(v)),
{
    match v {
        Some(Json::Text(s)) => Some(s.as_str()),
        _ => None,
    }
}

/// A text, or another where there is none.
pub fn str_or<'a>(s: Option<&'a str>, other: &'a str) -> (r: &'a str)
    ensures
        r@ == text::text_or(opt_str(s), other@),
{
    match s {
        Some(s) => s,
        None => other,
    }
}

/// The items of a value that is an array.
pub fn as_array<'a>(v: Option<&'a Json>) -> (r: Option<&'a Vec<Json>>)
    ensures
        match r {
            Some(items) => opt_items(opt_tree(v)) == Some(trees(items@)),
            None => opt_items(opt_tree(v)) is None,
        },
{
    broadcast use lemma_array_tree;

    match v {
        Some(Json::Array(items)) => Some(items),
        _ => None,
    }
}

/// The value of a whole number below 2^64.
pub fn as_whole(v: Option<&Json>) -> (r: Option<u64>)
    ensures
        r == opt_whole(opt_tree(v)),
{
    match v {
        Some(Json::Number { whole, .. }) => *whole,
        _ => None,
    }
}

/// Whether a value is the truth value `true`.
pub fn is_flag_set(v: Option<&Json>) -> (r: bool)
    ensures
        r == is_true(opt_tree(v)),
{
    match v {
        Some(Json::Bool(b)) => *b,
        _ => false,
    }
}

// ---------------------------------------------------------------------------------------------
// Building values
// ---------------------------------------------------------------------------------------------

/// A text.
pub fn text_value(s: &str) -> (r: Json)
    ensures
        r.tree() == JsonView::Text(s@),
{
    Json::Text(s.to_string())
}

/// What a whole number holds.
pub open spec fn whole_view(n: u64) -> JsonView {
    JsonView::Number { whole: Some(n), text: text::decimal(n as nat) }
}

/// A whole number.
pub fn whole_value(n: u64) -> (r: Json)
    ensures
        r.tree() == whole_view(n),
{
    Json::Number { whole: Some(n), text: text::decimal_of(n) }
}

/// What a text that may be missing holds.
pub open spec fn opt_text_view(s: Option<Seq<char>>) -> JsonView {
    match s {
        Some(s) => JsonView::Text(s),
        None => JsonView::Null,
    }
}

/// A text, or `null` where there is none.
pub fn opt_text_value(s: &Option<String>) -> (r: Json)
    ensures
        r.tree() == opt_text_view(text::opt_view(*s)),
{
    match s {
        Some(s) => text_value(s.as_str()),
        None => Json::Null,
    }
}

/// An array.
pub fn array_value(items: Vec<Json>) -> (r: Json)
    ensures
        r.tree() == JsonView::Array(trees(items@)),
{
    broadcast use lemma_array_tree;

    Json::Array(items)
}

/// An object without members.
pub fn empty_object() -> (r: Json)
    ensures
        r.tree() == JsonView::Object(Seq::empty()),
{
    broadcast use lemma_object_tree;

    let members: Vec<(String, Json)> = Vec::new();
    assert(member_trees(members@) =~= Seq::empty());
    Json::Object(members)
}

/// An object with one more member at its end.
pub open spec fn with_member(v: JsonView, key: Seq<char>, value: JsonView) -> JsonView {
    match v {
        JsonView::Object(members) => JsonView::Object(members.push((key, value))),
        _ => v,
    }
}

/// Adds a member at the end of an object.
pub fn add_member(object: Json, key: &str, value: Json) -> (r: Json)
    ensures
        r.tree() == with_member(object.tree(), key@, value.tree()),
{
    broadcast use lemma_object_tree;

    match object {
        Json::Object(members) => {
            let mut members = members;
            let ghost before = member_trees(members@);
            let ghost added = (key@, value.tree());
            members.push((key.to_string(), value));
            assert(member_trees(members@) =~= before.push(added));
            Json::Object(members)
        },
        other => other,
    }
}

/// Appends a value to a list.
pub fn push_value(items: &mut Vec<Json>, value: Json)
    ensures
        trees(final(items)@) == trees(old(items)@).push(value.tree()),
{
    let ghost before = trees(items@);
    let ghost added = value.tree();
    items.push(value);
    assert(trees(items@) =~= before.push(added));
}

/// The texts, as values.
pub open spec fn text_views(items: Seq<Seq<char>>) -> Seq<JsonView> {
    items.map_values(|s: Seq<char>| JsonView::Text(s))
}

/// An array of texts.
pub fn text_array(items: &Vec<String>) -> (r: Json)
    ensures
        r.tree() == JsonView::Array(text_views(text::views(items@))),
{
    let mut out: Vec<Json> = Vec::new();
    for i in 0..items.len()
        invariant
            trees(out@) == text_views(text::views(items@).take(i as int)),
    {
        push_value(&mut out, text_value(items[i].as_str()));
        assert(text_views(text::views(items@).take(i + 1)) =~= text_views(
            text::views(items@).take(i as int),
        ).push(JsonView::Text(items@[i as int]@)));
    }
    assert(text::views(items@).take(items@.len() as int) =~= text::views(items@));
    array_value(out)
}

/// A copy of a value.
pub fn copy(v: &Json) -> (r: Json)
    ensures
        r.tree() == v.tree(),
    decreases v,
{
    broadcast use lemma_array_tree, lemma_object_tree;

    match v {
        Json::Null => Json::Null,
        Json::Bool(b) => Json::Bool(*b),
        Json::Number { whole, text } => Json::Number { whole: *whole, text: text.clone() },
        Json::Text(s) => Json::Text(s.clone()),
        Json::Array(items) => {
            let mut out: Vec<Json> = Vec::new();
            for i in 0..items.len()
                invariant
                    v == Json::Array(*items),
                    trees(out@) == trees(items@).take(i as int),
            {
                assert(decreases_to!(v->Array_0@ => v->Array_0@[i as int]));
                push_value(&mut out, copy(&items[i]));
                assert(trees(out@) =~= trees(items@).take(i + 1));
            }
            assert(trees(out@) =~= trees(items@));
            Json::Array(out)
        },
        Json::Object(members) => {
            let mut out: Vec<(String, Json)> = Vec::new();
            for i in 0..members.len()
                invariant
                    v == Json::Object(*members),
                    member_trees(out@) == member_trees(members@).take(i as int),
            {
                assert(decreases_to!(v->Object_0@ => v->Object_0@[i as int]));
                assert(decreases_to!(v->Object_0@[i as int] => v->Object_0@[i as int].1));
                let ghost before = member_trees(out@);
                let name = members[i].0.clone();
                let value = copy(&members[i].1);
                let ghost added = (name@, value.tree());
                out.push((name, value));
                assert(member_trees(out@) =~= before.push(added));
                assert(member_trees(out@) =~= member_trees(members@).take(i + 1));
            }
            assert(member_trees(out@) =~= member_trees(members@));
            Json::Object(out)
        },
    }
}

/// Copies some values.
pub fn copy_values(items: &Vec<Json>) -> (r: Vec<Json>)
    ensures
        trees(r@) == trees(items@),
{
    let mut out: Vec<Json> = Vec::new();
    for i in 0..items.len()
        invariant
            trees(out@) == trees(items@).take(i as int),
    {
        push_value(&mut out, copy(&items[i]));
        assert(trees(out@) =~= trees(items@).take(i + 1));
    }
    assert(trees(items@).take(items@.len() as int) =~= trees(items@));
    out
}

// ---------------------------------------------------------------------------------------------
// Text
// ---------------------------------------------------------------------------------------------

#[verifier::external_type_specification]
#[verifier::external_body]
pub struct ExValue(serde_json::Value);

/// The value that a text stands for in JSON, or what is wrong with the text.
pub uninterp spec fn parsed(text: Seq<char>) -> Result<JsonView, Seq<char>>;

/// The indented text of a value.
pub uninterp spec fn pretty(v: JsonView) -> Seq<char>;

/// The text of a value on one line.
pub uninterp spec fn compact(v: JsonView) -> Seq<char>;

/// A `serde_json` value, variant by variant.
#[verifier::external_body]
fn value_of(value: &serde_json::Value) -> Json {
    match value {
        serde_json::Value::Null => Json::Null,
        serde_json::Value::Bool(b) => Json::Bool(*b),
        serde_json::Value::Number(n) => Json::Number { whole: n.as_u64(), text: n.to_string() },
        serde_json::Value::String(s) => Json::Text(s.clone()),
        serde_json::Value::Array(items) => Json::Array(items.iter().map(value_of).collect()),
        serde_json::Value::Object(map) =>
            Json::Object(map.iter().map(|(k, v)| (k.clone(), value_of(v))).collect()),
    }
}

/// The `serde_json` value of a value, variant by variant; a number goes by its text.
#[verifier::external_body]
fn value_for(v: &Json) -> serde_json::Value {
    match v {
        Json::Null => serde_json::Value::Null,
        Json::Bool(b) => serde_json::Value::Bool(*b),
        Json::Number { text, .. } => serde_json::from_str(text).unwrap_or_default(),
        Json::Text(s) => serde_json::Value::String(s.clone()),
        Json::Array(items) => serde_json::Value::Array(items.iter().map(value_for).collect()),
        Json::Object(members) => serde_json::Value::Object(
            members.iter().map(|(k, v)| (k.clone(), value_for(v))).collect(),
        ),
    }
}

/// `serde_json::from_str` into a value. What it makes of a text, the value or the error in words,
/// goes by the name `parsed`.
#[verifier::external_body]
pub(crate) fn parse(text: &str) -> (r: Result<Json, String>)
    ensures
        (match r {
            Ok(j) => Ok(j.tree()),
            Err(e) => Err(e@),
        }) == parsed(text@),
{
    match serde_json::from_str::<serde_json::Value>(text) {
        Ok(v) => Ok(value_of(&v)),
        Err(e) => Err(e.to_string()),
    }
}

/// `serde_json::to_string_pretty`. The text of a value goes by the name `pretty`.
#[verifier::external_body]
pub(crate) fn to_pretty(v: &Json) -> (r: String)
    ensures
        r@ == pretty(v.tree()),
{
    serde_json::to_string_pretty(&value_for(v)).unwrap_or_default()
}

/// `serde_json::to_string`. The text of a value goes by the name `compact`.
#[verifier::external_body]
pub(crate) fn to_compact(v: &Json) -> (r: String)
    ensures
        r@ == compact(v.tree()),
{
    serde_json::to_string(&value_for(v)).unwrap_or_default()
}

/// The member of an object is the first one with its key.
pub proof fn law_member(members: Seq<(Seq<char>, JsonView)>, key: Seq<char>)
    ensures
        forall|i: int|
            0 <= i < members.len() && (#[trigger] members[i]).0 == key && (forall|j: int|
                0 <= j < i ==> (#[trigger] members[j]).0 != key) ==> member(members, key) == Some(
                members[i].1,
            ),
        (forall|j: int| 0 <= j < members.len() ==> (#[trigger] members[j]).0 != key) ==> member(
            members,
            key,
        ) is None,
    decreases members.len(),
{
    if members.len() > 0 {
        let rest = members.drop_first();
        law_member(rest, key);
        assert forall|i: int|
            0 <= i < members.len() && (#[trigger] members[i]).0 == key && (forall|j: int|
                0 <= j < i ==> (#[trigger] members[j]).0 != key) implies member(members, key)
            == Some(members[i].1) by {
            if i > 0 {
                assert(members[0].0 != key);
                assert(rest[i - 1] == members[i]);
                assert forall|j: int| 0 <= j < i - 1 implies (#[trigger] rest[j]).0 != key by {
                    assert(members[j + 1].0 != key);
                }
            }
        }
        if forall|j: int| 0 <= j < members.len() ==> (#[trigger] members[j]).0 != key {
            assert(members[0].0 != key);
            assert forall|j: int| 0 <= j < rest.len() implies (#[trigger] rest[j]).0 != key by {
                assert(members[j + 1].0 != key);
            }
        }
    }
}

/// A member that is added to an object that has none with its key is found under that key, and the
/// other members as before.
pub proof fn law_member_added(v: JsonView, key: Seq<char>, value: JsonView, other: Seq<char>)
    requires
        v is Object,
        field(v, key) is None,
        other != key,
    ensures
        field(with_member(v, key, value), key) == Some(value),
        field(with_member(v, key, value), other) == field(v, other),
{
    lemma_member_pushed(v->Object_0, key, value, key);
    lemma_member_pushed(v->Object_0, key, value, other);
}

/// What is found in members with one more.
proof fn lemma_member_pushed(
    members: Seq<(Seq<char>, JsonView)>,
    key: Seq<char>,
    value: JsonView,
    asked: Seq<char>,
)
    ensures
        member(members.push((key, value)), asked) == (if member(members, asked) is Some {
            member(members, asked)
        } else if asked == key {
            Some(value)
        } else {
            None
        }),
    decreases members.len(),
{
    let all = members.push((key, value));
    if members.len() > 0 {
        assert(all.drop_first() =~= members.drop_first().push((key, value)));
        lemma_member_pushed(members.drop_first(), key, value, asked);
    } else {
        assert(all.drop_first() =~= Seq::<(Seq<char>, JsonView)>::empty());
        assert(member(all.drop_first(), asked) is None);
    }
}

}
