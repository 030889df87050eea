//! JSON values as they come off the wire.
//!
//! A [`Json`] is the library's own tree; reading and writing JSON text is `serde_json`'s work.
//! Numbers stay the `serde_json::Number` that was read, so that a value passed through comes out
//! as it went in.

use vstd::prelude::*;

use crate::double::Double;
use crate::text::same_text;

verus! {

/// A parsed JSON number of `serde_json`.
#[verifier::external_type_specification]
#[verifier::external_body]
pub struct ExNumber(serde_json::Number);

/// A parsed JSON value of `serde_json`.
#[verifier::external_type_specification]
#[verifier::external_body]
pub struct ExValue(serde_json::Value);

/// An error of `serde_json`.
#[verifier::external_type_specification]
#[verifier::external_body]
pub struct ExError(serde_json::Error);

/// The words of an error of `serde_json`, as `to_string` tells them.
pub uninterp spec fn error_words(e: serde_json::Error) -> Seq<char>;

/// What a JSON number holds.
#[derive(Debug, Clone, Copy, PartialEq, Eq, Structural)]
pub enum Held {
    /// An integer that is not negative and fits.
    PosInt(u64),
    /// A negative integer that fits.
    NegInt(i64),
    /// Any other number.
    Other,
}

/// The integer that `serde_json::Number::as_u64` gives for `n`.
pub uninterp spec fn number_unsigned(n: serde_json::Number) -> Option<u64>;

/// The integer that `serde_json::Number::as_i64` gives for `n`.
pub uninterp spec fn number_signed(n: serde_json::Number) -> Option<i64>;

/// The double that `serde_json::Number::as_f64` gives for `n`.
pub uninterp spec fn number_double(n: serde_json::Number) -> Option<Double>;

/// What `n` holds.
pub open spec fn number_held(n: serde_json::Number) -> Held {
    match number_unsigned(n) {
        Some(u) => Held::PosInt(u),
        None => match number_signed(n) {
            Some(i) => Held::NegInt(i),
            None => Held::Other,
        },
    }
}

/// The tree that a `serde_json::Value` holds.
pub uninterp spec fn value_held(v: serde_json::Value) -> JsonView;

/// What `serde_json::from_str` makes of `text`: the tree, or the words of its error.
pub uninterp spec fn decoded(text: Seq<char>) -> Result<JsonView, Seq<char>>;

/// Whether one text comes before another, character by character.
pub open spec fn precedes(a: Seq<char>, b: Seq<char>) -> bool
    decreases a.len(),
{
    if b.len() == 0 {
        false
    } else if a.len() == 0 {
        true
    } else if a[0] != b[0] {
        a[0] < b[0]
    } else {
        precedes(a.drop_first(), b.drop_first())
    }
}

/// Members in the order of their keys after one more: it replaces the one with its key, or takes its
/// place among them.
pub open spec fn put_member(
    sorted: Seq<(Seq<char>, JsonView)>,
    key: Seq<char>,
    value: JsonView,
) -> Seq<(Seq<char>, JsonView)>
    decreases sorted.len(),
{
    if sorted.len() == 0 || precedes(sorted.last().0, key) {
        sorted.push((key, value))
    } else if sorted.last().0 == key {
        sorted.drop_last().push((key, value))
    } else {
        put_member(sorted.drop_last(), key, value).push(sorted.last())
    }
}

/// The members that a map made of `members` has, in the order of their keys: of several with one key,
/// the last.
pub open spec fn mapped(members: Seq<(Seq<char>, JsonView)>) -> Seq<(Seq<char>, JsonView)>
    decreases members.len(),
{
    if members.len() == 0 {
        Seq::empty()
    } else {
        put_member(mapped(members.drop_last()), members.last().0, members.last().1)
    }
}

/// What `serde_json::to_string_pretty` writes for a tree: the text, or the words of its error.
pub uninterp spec fn pretty_text(j: JsonView) -> Result<Seq<char>, Seq<char>>;

/// What `serde_json::Value` writes of itself with `to_string`, for a tree.
pub uninterp spec fn compact_text(j: JsonView) -> Seq<char>;

/// A JSON value. An object keeps its members in order.
#[derive(Debug, PartialEq)]
pub enum Json {
    /// `null`.
    Null,
    /// `true` or `false`.
    Bool(bool),
    /// A number.
    Number(serde_json::Number),
    /// A string.
    Text(String),
    /// An array.
    Array(Vec<Json>),
    /// An object.
    Object(Vec<(String, Json)>),
}

/// What a JSON value is, as mathematics. A number is what it holds and the double it converts to.
#[verifier::ext_equal]
pub enum JsonView {
    Null,
    Bool(bool),
    Number(Held, Option<Double>),
    Text(Seq<char>),
    Array(Seq<JsonView>),
    Object(Seq<(Seq<char>, JsonView)>),
}

/// The value that `j` stands for.
pub open spec fn json_view(j: Json) -> JsonView
    decreases j,
{
    match j {
        Json::Null => JsonView::Null,
        Json::Bool(b) => JsonView::Bool(b),
        Json::Number(n) => JsonView::Number(number_held(n), number_double(n)),
        Json::Text(s) => JsonView::Text(s@),
        Json::Array(items) => JsonView::Array(
            Seq::new(
                items@.len(),
                |i: int|
                    if 0 <= i < items@.len() {
                        json_view(items@[i])
                    } else {
                        JsonView::Null
                    },
            ),
        ),
        Json::Object(members) => JsonView::Object(
            Seq::new(
                members@.len(),
                |i: int|
                    if 0 <= i < members@.len() {
                        (members@[i].0@, json_view(members@[i].1))
                    } else {
                        (Seq::empty(), JsonView::Null)
                    },
            ),
        ),
    }
}

/// The items of an array, each as the value it stands for.
pub open spec fn array_view(items: Seq<Json>) -> Seq<JsonView> {
    Seq::new(items.len(), |i: int| json_view(items[i]))
}

/// The members of an object, each as the key and the value it stands for.
pub open spec fn object_view(members: Seq<(String, Json)>) -> Seq<(Seq<char>, JsonView)> {
    Seq::new(members.len(), |i: int| (members[i].0@, json_view(members[i].1)))
}

/// An array stands for the array of what its items stand for.
pub proof fn lemma_array_view(items: Vec<Json>)
    ensures
        json_view(Json::Array(items)) == JsonView::Array(array_view(items@)),
{
    match json_view(Json::Array(items)) {
        JsonView::Array(s) => {
            assert(s =~= array_view(items@));
        },
        _ => {},
    }
}

/// An object stands for the object of what its members stand for.
pub proof fn lemma_object_view(members: Vec<(String, Json)>)
    ensures
        json_view(Json::Object(members)) == JsonView::Object(object_view(members@)),
{
    match json_view(Json::Object(members)) {
        JsonView::Object(s) => {
            assert(s =~= object_view(members@));
        },
        _ => {},
    }
}

impl View for Json {
    type V = JsonView;

    open spec fn view(&self) -> JsonView {
        json_view(*self)
    }
}

impl DeepView for Json {
    type V = JsonView;

    open spec fn deep_view(&self) -> JsonView {
        json_view(*self)
    }
}

/// `serde_json::Number::as_u64`: the unsigned integer that the number holds, if any.
#[verifier::external_body]
fn unsigned_of(n: &serde_json::Number) -> (r: Option<u64>)
    ensures
        r == number_unsigned(*n),
{
    n.as_u64()
}

/// `serde_json::Number::as_i64`: the signed integer that the number holds, if any.
#[verifier::external_body]
fn integer_of(n: &serde_json::Number) -> (r: Option<i64>)
    ensures
        r == number_signed(*n),
{
    n.as_i64()
}

fn held_of(n: &serde_json::Number) -> (r: Held)
    ensures
        r == number_held(*n),
{
    match unsigned_of(n) {
        Some(u) => Held::PosInt(u),
        None => match integer_of(n) {
            Some(i) => Held::NegInt(i),
            None => Held::Other,
        },
    }
}

/// `serde_json::Number::as_f64`: the number as a double.
#[verifier::external_body]
fn double_of(n: &serde_json::Number) -> (r: Option<Double>)
    ensures
        r == number_double(*n),
{
    n.as_f64().map(|x| Double { bits: x.to_bits() })
}

/// `serde_json::Number::clone`: another number that holds the same.
#[verifier::external_body]
fn clone_number(n: &serde_json::Number) -> (r: serde_json::Number)
    ensures
        number_unsigned(r) == number_unsigned(*n),
        number_signed(r) == number_signed(*n),
        number_double(r) == number_double(*n),
{
    n.clone()
}

/// `serde_json::from_str`: the value that `text` encodes.
#[verifier::external_body]
fn decode(text: &str) -> (r: Result<serde_json::Value, serde_json::Error>)
    ensures
        match r {
            Ok(v) => decoded(text@) == Ok::<JsonView, Seq<char>>(value_held(v)),
            Err(e) => decoded(text@) == Err::<JsonView, Seq<char>>(error_words(e)),
        },
{
    serde_json::from_str(text)
}

/// The outermost layer of a `serde_json::Value`.
enum Layer {
    Null,
    Bool(bool),
    Number(serde_json::Number),
    Text(String),
    Array(Vec<serde_json::Value>),
    Object(Vec<(String, serde_json::Value)>),
}

/// The trees that the items of an array hold.
pub open spec fn items_held(items: Seq<serde_json::Value>) -> Seq<JsonView> {
    Seq::new(items.len(), |i: int| value_held(items[i]))
}

/// The keys of an object and the trees that its members hold.
pub open spec fn members_held(members: Seq<(String, serde_json::Value)>) -> Seq<
    (Seq<char>, JsonView),
> {
    Seq::new(members.len(), |i: int| (members[i].0@, value_held(members[i].1)))
}

/// The variant of a `serde_json::Value`; an object's members come in the order of its map.
#[verifier::external_body]
fn open_value(value: serde_json::Value) -> (r: Layer)
    ensures
        value_held(value) == (match r {
            Layer::Null => JsonView::Null,
            Layer::Bool(b) => JsonView::Bool(b),
            Layer::Number(n) => JsonView::Number(number_held(n), number_double(n)),
            Layer::Text(s) => JsonView::Text(s@),
            Layer::Array(items) => JsonView::Array(items_held(items@)),
            Layer::Object(members) => JsonView::Object(members_held(members@)),
        }),
{
    match value {
        serde_json::Value::Null => Layer::Null,
        serde_json::Value::Bool(b) => Layer::Bool(b),
        serde_json::Value::Number(n) => Layer::Number(n),
        serde_json::Value::String(s) => Layer::Text(s),
        serde_json::Value::Array(items) => Layer::Array(items),
        serde_json::Value::Object(members) => Layer::Object(members.into_iter().collect()),
    }
}

/// The `serde_json::Value` of a variant; an object's members go through a `serde_json::Map`, which
/// keeps them in the order of their keys, and of several with one key the last.
#[verifier::external_body]
fn close_value(layer: Layer) -> (r: serde_json::Value)
    ensures
        value_held(r) == (match layer {
            Layer::Null => JsonView::Null,
            Layer::Bool(b) => JsonView::Bool(b),
            Layer::Number(n) => JsonView::Number(number_held(n), number_double(n)),
            Layer::Text(s) => JsonView::Text(s@),
            Layer::Array(items) => JsonView::Array(items_held(items@)),
            Layer::Object(members) => JsonView::Object(mapped(members_held(members@))),
        }),
{
    match layer {
        Layer::Null => serde_json::Value::Null,
        Layer::Bool(b) => serde_json::Value::Bool(b),
        Layer::Number(n) => serde_json::Value::Number(n),
        Layer::Text(s) => serde_json::Value::String(s),
        Layer::Array(items) => serde_json::Value::Array(items),
        Layer::Object(members) => serde_json::Value::Object(members.into_iter().collect()),
    }
}

/// `serde_json::Value::clone`: another value that holds the same.
#[verifier::external_body]
fn clone_value(value: &serde_json::Value) -> (r: serde_json::Value)
    ensures
        value_held(r) == value_held(*value),
{
    value.clone()
}

/// The tree of a `serde_json::Value`.
fn unpack(value: serde_json::Value) -> (r: Json)
    ensures
        r@ == value_held(value),
    decreases value_held(value),
{
    match open_value(value) {
        Layer::Null => Json::Null,
        Layer::Bool(b) => Json::Bool(b),
        Layer::Number(n) => Json::Number(n),
        Layer::Text(s) => Json::Text(s),
        Layer::Array(items) => {
            let ghost held = items_held(items@);
            let mut out: Vec<Json> = Vec::new();
            let mut i: usize = 0;
            while i < items.len()
                invariant
                    i <= items@.len(),
                    out@.len() == i,
                    held == items_held(items@),
                    value_held(value) == JsonView::Array(held),
                    forall|k: int| 0 <= k < i ==> json_view(#[trigger] out@[k]) == held[k],
                decreases items@.len() - i,
            {
                let item = clone_value(&items[i]);
                assert(value_held(item) == held[i as int]);
                assert(decreases_to!(value_held(value) => value_held(value)->Array_0));
                assert(decreases_to!(held => held[i as int]));
                out.push(unpack(item));
                i += 1;
            }
            proof {
                lemma_array_view(out);
                assert(array_view(out@) =~= held);
            }
            Json::Array(out)
        },
        Layer::Object(members) => {
            let ghost held = members_held(members@);
            let mut out: Vec<(String, Json)> = Vec::new();
            let mut i: usize = 0;
            while i < members.len()
                invariant
                    i <= members@.len(),
                    out@.len() == i,
                    held == members_held(members@),
                    value_held(value) == JsonView::Object(held),
                    forall|k: int|
                        0 <= k < i ==> (#[trigger] out@[k]).0@ == held[k].0 && json_view(out@[k].1)
                            == held[k].1,
                decreases members@.len() - i,
            {
                let key = members[i].0.clone();
                let item = clone_value(&members[i].1);
                assert(held[i as int] == (key@, value_held(item)));
                assert(decreases_to!(value_held(value) => value_held(value)->Object_0));
                assert(decreases_to!(held => held[i as int]));
                assert(decreases_to!(held[i as int] => held[i as int].1));
                out.push((key, unpack(item)));
                i += 1;
            }
            proof {
                lemma_object_view(out);
                assert(object_view(out@) =~= held);
            }
            Json::Object(out)
        },
    }
}

/// The tree that remains of `j` as a `serde_json::Value`: every object has gone through a map.
pub open spec fn packed(j: JsonView) -> JsonView
    decreases j,
{
    match j {
        JsonView::Array(items) => JsonView::Array(
            Seq::new(
                items.len(),
                |i: int|
                    if 0 <= i < items.len() {
                        packed(items[i])
                    } else {
                        JsonView::Null
                    },
            ),
        ),
        JsonView::Object(members) => JsonView::Object(mapped(packed_members(members))),
        _ => j,
    }
}

/// The members of an object, what each holds packed.
pub open spec fn packed_members(members: Seq<(Seq<char>, JsonView)>) -> Seq<(Seq<char>, JsonView)>
    decreases members,
{
    if members.len() == 0 {
        Seq::empty()
    } else {
        packed_members(members.drop_last()).push((members.last().0, packed(members.last().1)))
    }
}

/// The `serde_json::Value` of a tree.
fn pack(j: &Json) -> (r: serde_json::Value)
    ensures
        value_held(r) == packed(j@),
    decreases j,
{
    match j {
        Json::Null => close_value(Layer::Null),
        Json::Bool(b) => close_value(Layer::Bool(*b)),
        Json::Number(n) => close_value(Layer::Number(clone_number(n))),
        Json::Text(s) => close_value(Layer::Text(s.clone())),
        Json::Array(items) => {
            let mut out: Vec<serde_json::Value> = Vec::new();
            let mut i: usize = 0;
            while i < items.len()
                invariant
                    *j == Json::Array(*items),
                    i <= items@.len(),
                    out@.len() == i,
                    forall|k: int|
                        0 <= k < i ==> value_held(#[trigger] out@[k]) == packed(json_view(items@[k])),
                decreases items@.len() - i,
            {
                assert(decreases_to!(*j => j->Array_0));
                assert(decreases_to!(*items => items@));
                assert(decreases_to!(items@ => items@[i as int]));
                out.push(pack(&items[i]));
                i += 1;
            }
            proof {
                lemma_array_view(*items);
                assert(items_held(out@) =~= packed(j@)->Array_0);
            }
            close_value(Layer::Array(out))
        },
        Json::Object(members) => {
            let ghost view = object_view(members@);
            let mut out: Vec<(String, serde_json::Value)> = Vec::new();
            let mut i: usize = 0;
            assert(members_held(out@) =~= packed_members(view.take(0)));
            while i < members.len()
                invariant
                    *j == Json::Object(*members),
                    view == object_view(members@),
                    i <= members@.len(),
                    out@.len() == i,
                    members_held(out@) == packed_members(view.take(i as int)),
                decreases members@.len() - i,
            {
                let key = members[i].0.clone();
                assert(decreases_to!(*j => j->Object_0));
                assert(decreases_to!(*members => members@));
                assert(decreases_to!(members@ => members@[i as int]));
                assert(decreases_to!(members@[i as int] => members@[i as int].1));
                let item = pack(&members[i].1);
                let ghost before = members_held(out@);
                out.push((key, item));
                proof {
                    assert(members_held(out@) =~= before.push((key@, value_held(item))));
                    assert(view.take(i + 1).drop_last() =~= view.take(i as int));
                    assert(view.take(i + 1).last() == view[i as int]);
                }
                i += 1;
            }
            proof {
                lemma_object_view(*members);
                assert(view.take(i as int) =~= view);
            }
            close_value(Layer::Object(out))
        },
    }
}

/// `serde_json::to_string_pretty`: the text of a value, indented.
#[verifier::external_body]
fn print_pretty(value: &serde_json::Value) -> (r: Result<String, serde_json::Error>)
    ensures
        match r {
            Ok(s) => pretty_text(value_held(*value)) == Ok::<Seq<char>, Seq<char>>(s@),
            Err(e) => pretty_text(value_held(*value)) == Err::<Seq<char>, Seq<char>>(
                error_words(e),
            ),
        },
{
    serde_json::to_string_pretty(value)
}

/// `serde_json::Error::to_string`: the words of an error.
#[verifier::external_body]
pub(crate) fn error_text(e: &serde_json::Error) -> (r: String)
    ensures
        r@ == error_words(*e),
{
    e.to_string()
}

/// `serde_json::Value::to_string`: the text of a value, without white space.
#[verifier::external_body]
fn print_compact(value: &serde_json::Value) -> (r: String)
    ensures
        r@ == compact_text(value_held(*value)),
{
    value.to_string()
}

/// Writes a JSON value as text without white space.
pub fn compact_json(j: &Json) -> (r: String)
    ensures
        r@ == compact_text(packed(j@)),
{
    let v = pack(j);
    print_compact(&v)
}

/// Reads JSON text.
pub fn parse_json(text: &str) -> (r: Result<Json, String>)
    ensures
        match r {
            Ok(j) => decoded(text@) == Ok::<JsonView, Seq<char>>(j@),
            Err(e) => decoded(text@) == Err::<JsonView, Seq<char>>(e@),
        },
{
    match decode(text) {
        Ok(v) => Ok(unpack(v)),
        Err(e) => Err(error_text(&e)),
    }
}

/// Writes a JSON value as indented text.
pub fn pretty_json(j: &Json) -> (r: Result<String, serde_json::Error>)
    ensures
        match r {
            Ok(s) => pretty_text(packed(j@)) == Ok::<Seq<char>, Seq<char>>(s@),
            Err(e) => pretty_text(packed(j@)) == Err::<Seq<char>, Seq<char>>(error_words(e)),
        },
{
    let v = pack(j);
    print_pretty(&v)
}

/// An object under construction.
pub struct JsonObject {
    members: Vec<(String, Json)>,
}

impl View for JsonObject {
    type V = Seq<(Seq<char>, JsonView)>;

    closed spec fn view(&self) -> Seq<(Seq<char>, JsonView)> {
        object_view(self.members@)
    }
}

/// The member `key` where there is text for it, nothing otherwise.
pub open spec fn text_if(key: Seq<char>, value: Option<Seq<char>>) -> Seq<(Seq<char>, JsonView)> {
    match value {
        Some(v) => seq![(key, JsonView::Text(v))],
        None => Seq::empty(),
    }
}

impl JsonObject {
    /// An object without members.
    pub fn new() -> (o: JsonObject)
        ensures
            o@ == Seq::<(Seq<char>, JsonView)>::empty(),
    {
        let o = JsonObject { members: Vec::new() };
        assert(object_view(o.members@) =~= Seq::empty());
        o
    }

    /// Adds a member.
    pub fn put(&mut self, key: &str, value: Json)
        ensures
            final(self)@ == old(self)@.push((key@, value@)),
    {
        let ghost before = object_view(self.members@);
        self.members.push((key.to_owned(), value));
        assert(object_view(self.members@) =~= before.push((key@, value@)));
    }

    /// Adds a member that holds text.
    pub fn put_text(&mut self, key: &str, value: &str)
        ensures
            final(self)@ == old(self)@.push((key@, JsonView::Text(value@))),
    {
        self.put(key, Json::Text(value.to_owned()));
    }

    /// Adds a member that holds text, where there is text.
    pub fn put_optional(&mut self, key: &str, value: &Option<String>)
        ensures
            final(self)@ == old(self)@ + text_if(key@, value.deep_view()),
    {
        match value {
            Some(v) => {
                self.put_text(key, v.as_str());
            },
            None => {
                assert(self@ + Seq::<(Seq<char>, JsonView)>::empty() =~= self@);
            },
        }
    }

    /// The finished object.
    pub fn finish(self) -> (j: Json)
        ensures
            j@ == JsonView::Object(self@),
    {
        proof {
            lemma_object_view(self.members);
        }
        Json::Object(self.members)
    }
}

/// The value of the first member with key `key`.
pub open spec fn lookup(members: Seq<(Seq<char>, JsonView)>, key: Seq<char>) -> Option<JsonView>
    decreases members.len(),
{
    if members.len() == 0 {
        None
    } else if members[0].0 == key {
        Some(members[0].1)
    } else {
        lookup(members.drop_first(), key)
    }
}

/// The member `key` of an object; anything else has no member.
pub open spec fn member(j: JsonView, key: Seq<char>) -> Option<JsonView> {
    match j {
        JsonView::Object(members) => lookup(members, key),
        _ => None,
    }
}

/// The first member with its key is found by it.
pub proof fn lemma_lookup_at(members: Seq<(Seq<char>, JsonView)>, i: int)
    requires
        0 <= i < members.len(),
        forall|k: int| 0 <= k < i ==> (#[trigger] members[k]).0 != members[i].0,
    ensures
        lookup(members, members[i].0) == Some(members[i].1),
    decreases members.len(),
{
    if i > 0 {
        assert(members[0].0 != members[i].0);
        let rest = members.drop_first();
        assert(rest[i - 1] == members[i]);
        assert forall|k: int| 0 <= k < i - 1 implies (#[trigger] rest[k]).0 != rest[i - 1].0 by {
            assert(rest[k] == members[k + 1]);
        }
        lemma_lookup_at(rest, i - 1);
    }
}

/// A key that no member has is not found.
pub proof fn lemma_lookup_none(members: Seq<(Seq<char>, JsonView)>, key: Seq<char>)
    requires
        forall|i: int| 0 <= i < members.len() ==> (#[trigger] members[i]).0 != key,
    ensures
        lookup(members, key) is None,
    decreases members.len(),
{
    if members.len() > 0 {
        let rest = members.drop_first();
        assert forall|i: int| 0 <= i < rest.len() implies (#[trigger] rest[i]).0 != key by {
            assert(rest[i] == members[i + 1]);
        }
        lemma_lookup_none(rest, key);
    }
}

/// The words for the type of a value.
pub open spec fn kind_words(j: JsonView) -> Seq<char> {
    match j {
        JsonView::Null => "null"@,
        JsonView::Bool(_) => "a boolean"@,
        JsonView::Number(_, _) => "a number"@,
        JsonView::Text(_) => "a string"@,
        JsonView::Array(_) => "an array"@,
        JsonView::Object(_) => "an object"@,
    }
}

impl Json {
    /// The member `key` of an object; anything else has no member.
    pub fn get(&self, key: &str) -> (r: Option<&Json>)
        ensures
            match r {
                Some(v) => member(self@, key@) == Some(v@),
                None => member(self@, key@) is None,
            },
    {
        match self {
            Json::Object(members) => {
                let ghost view = match self@ {
                    JsonView::Object(m) => m,
                    _ => Seq::empty(),
                };
                let mut i: usize = 0;
                proof {
                    assert(view.skip(0) =~= view);
                }
                while i < members.len()
                    invariant
                        i <= members@.len(),
                        self@ == JsonView::Object(view),
                        view.len() == members@.len(),
                        forall|k: int|
                            0 <= k < members@.len() ==> #[trigger] view[k] == (
                                members@[k].0@,
                                members@[k].1@,
                            ),
                        member(self@, key@) == lookup(view.skip(i as int), key@),
                    decreases members@.len() - i,
                {
                    let entry = &members[i];
                    proof {
                        assert(view.skip(i as int)[0] == view[i as int]);
                        assert(view.skip(i as int).drop_first() =~= view.skip(i + 1));
                    }
                    if same_text(entry.0.as_str(), key) {
                        return Some(&entry.1);
                    }
                    i += 1;
                }
                None
            },
            _ => None,
        }
    }

    /// The text of a string.
    pub fn as_text(&self) -> (r: Option<&str>)
        ensures
            match r {
                Some(s) => self@ == JsonView::Text(s@),
                None => !(self@ is Text),
            },
    {
        match self {
            Json::Text(s) => Some(s.as_str()),
            _ => None,
        }
    }

    /// The unsigned integer that a number holds.
    pub fn as_unsigned(&self) -> (r: Option<u64>)
        ensures
            r == (match self@ {
                JsonView::Number(Held::PosInt(n), _) => Some(n),
                _ => None::<u64>,
            }),
    {
        match self {
            Json::Number(n) => match held_of(n) {
                Held::PosInt(u) => Some(u),
                _ => None,
            },
            _ => None,
        }
    }

    /// The signed integer that a number holds.
    pub fn as_signed(&self) -> (r: Option<i64>)
        ensures
            r == signed_of(self@),
    {
        match self {
            Json::Number(n) => match held_of(n) {
                Held::PosInt(u) => if u <= 0x7fff_ffff_ffff_ffff {
                    Some(u as i64)
                } else {
                    None
                },
                Held::NegInt(i) => Some(i),
                Held::Other => None,
            },
            _ => None,
        }
    }

    /// The double that a number converts to.
    pub fn as_double(&self) -> (r: Option<Double>)
        ensures
            r == double_in(self@),
    {
        match self {
            Json::Number(n) => double_of(n),
            _ => None,
        }
    }

    /// The words for the type of this value.
    pub fn kind(&self) -> (r: &'static str)
        ensures
            r@ == kind_words(self@),
    {
        match self {
            Json::Null => "null",
            Json::Bool(_) => "a boolean",
            Json::Number(_) => "a number",
            Json::Text(_) => "a string",
            Json::Array(_) => "an array",
            Json::Object(_) => "an object",
        }
    }
}

/// The signed integer that a number holds.
pub open spec fn signed_of(j: JsonView) -> Option<i64> {
    match j {
        JsonView::Number(Held::PosInt(n), _) if n <= i64::MAX => Some(n as i64),
        JsonView::Number(Held::NegInt(n), _) => Some(n),
        _ => None,
    }
}

/// The double that a number converts to.
pub open spec fn double_in(j: JsonView) -> Option<Double> {
    match j {
        JsonView::Number(_, d) => d,
        _ => None,
    }
}

impl Clone for Json {
    fn clone(&self) -> (r: Json)
        ensures
            r@ == self@,
        decreases self,
    {
        match self {
            Json::Null => Json::Null,
            Json::Bool(b) => Json::Bool(*b),
            Json::Number(n) => Json::Number(clone_number(n)),
            Json::Text(s) => Json::Text(s.clone()),
            Json::Array(items) => {
                let mut out: Vec<Json> = Vec::new();
                let mut i: usize = 0;
                while i < items.len()
                    invariant
                        *self == Json::Array(*items),
                        i <= items@.len(),
                        out@.len() == i,
                        forall|k: int| 0 <= k < i ==> json_view(#[trigger] out@[k]) == json_view(items@[k]),
                    decreases items@.len() - i,
                {
                    proof {
                        assert(decreases_to!(*self => self->Array_0));
                        assert(decreases_to!(*items => items@));
                        assert(decreases_to!(items@ => items@[i as int]));
                    }
                    let item = items[i].clone();
                    out.push(item);
                    i += 1;
                }
                let r = Json::Array(out);
                proof {
                    lemma_array_view(out);
                    lemma_array_view(*items);
                    assert(array_view(out@) =~= array_view(items@));
                }
                r
            },
            Json::Object(members) => {
                let mut out: Vec<(String, Json)> = Vec::new();
                let mut i: usize = 0;
                while i < members.len()
                    invariant
                        *self == Json::Object(*members),
                        i <= members@.len(),
                        out@.len() == i,
                        forall|k: int|
                            0 <= k < i ==> (#[trigger] out@[k]).0@ == members@[k].0@ && json_view(
                                out@[k].1,
                            ) == json_view(members@[k].1),
                    decreases members@.len() - i,
                {
                    let key = members[i].0.clone();
                    proof {
                        assert(decreases_to!(*self => self->Object_0));
                        assert(decreases_to!(*members => members@));
                        assert(decreases_to!(members@ => members@[i as int]));
                        assert(decreases_to!(members@[i as int] => members@[i as int].1));
                    }
                    let item = members[i].1.clone();
                    out.push((key, item));
                    i += 1;
                }
                let r = Json::Object(out);
                proof {
                    lemma_object_view(out);
                    lemma_object_view(*members);
                    assert(object_view(out@) =~= object_view(members@));
                }
                r
            },
        }
    }
}

} // verus!
