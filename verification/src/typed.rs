//! JSON text read for a type: what the type has fields for is read, everything else is passed over.
//!
//! A record is written as an object, its fields by name, or as an array, its fields by place. What a
//! text holds beyond the fields need only be JSON: however deep it nests, however large its numbers
//! are, it is never read. Members are kept as they are written, so that a field given twice is seen.

use vstd::prelude::*;

use crate::json::decoded;
use crate::json::{parse_json, Json};
use crate::json::{array_view, lemma_array_view, lemma_object_view, lookup, object_view, JsonView};
use crate::text::same_text;

verus! {

/// What `serde_json` passes over as the first value of `text`, white space before it included; none
/// where no value stands there.
pub uninterp spec fn first_value(text: Seq<char>) -> Option<Seq<char>>;

/// The first step of `serde_json::StreamDeserializer` over `text`, with `serde::de::IgnoredAny` for
/// every value: what it passed over, up to its `byte_offset`, and what is left of the text.
#[verifier::external_body]
fn cut_value(text: &str) -> (r: Option<(&str, &str)>)
    ensures
        match r {
            Some((head, tail)) => first_value(text@) == Some(head@) && head@ + tail@ == text@,
            None => first_value(text@) is None,
        },
{
    let mut values = serde_json::Deserializer::from_str(text).into_iter::<serde::de::IgnoredAny>();
    match values.next() {
        Some(Ok(_)) => Some(text.split_at(values.byte_offset())),
        _ => None,
    }
}

/// The white space of JSON.
pub open spec fn is_gap(c: char) -> bool {
    c == ' ' || c == '\n' || c == '\t' || c == '\r'
}

/// A text without the white space that it begins with.
pub open spec fn past_gap(s: Seq<char>) -> Seq<char>
    decreases s.len(),
{
    if s.len() > 0 && is_gap(s[0]) {
        past_gap(s.drop_first())
    } else {
        s
    }
}

/// What follows the first `n` characters of a text.
pub open spec fn rest(s: Seq<char>, n: nat) -> Seq<char> {
    if n <= s.len() {
        s.skip(n as int)
    } else {
        Seq::empty()
    }
}

/// Whether a text begins with `c`.
pub open spec fn opens(s: Seq<char>, c: char) -> bool {
    s.len() > 0 && s[0] == c
}

/// A member of an object as it is written, and what follows it.
#[verifier::ext_equal]
pub struct Written {
    pub key: Seq<char>,
    pub value: Seq<char>,
    pub tail: Seq<char>,
}

/// The member that `s` begins with: a key, a colon and a value.
pub open spec fn member_at(s: Seq<char>) -> Option<Written> {
    if !opens(s, '"') {
        None
    } else {
        match first_value(s) {
            None => None,
            Some(quoted) => match decoded(quoted) {
                Ok(JsonView::Text(key)) => {
                    let colon = past_gap(rest(s, quoted.len()));
                    if !opens(colon, ':') {
                        None
                    } else {
                        match first_value(colon.skip(1)) {
                            None => None,
                            Some(value) => Some(
                                Written {
                                    key,
                                    value,
                                    tail: past_gap(rest(colon.skip(1), value.len())),
                                },
                            ),
                        }
                    }
                },
                _ => None,
            },
        }
    }
}

/// The members that `s` begins with, up to the brace that ends them and the text.
pub open spec fn members_from(s: Seq<char>) -> Option<Seq<(Seq<char>, Seq<char>)>>
    decreases s.len() via members_end
{
    match member_at(s) {
        None => None,
        Some(m) => if opens(m.tail, ',') {
            match members_from(past_gap(m.tail.skip(1))) {
                Some(others) => Some(seq![(m.key, m.value)] + others),
                None => None,
            }
        } else if opens(m.tail, '}') && past_gap(m.tail.skip(1)).len() == 0 {
            Some(seq![(m.key, m.value)])
        } else {
            None
        },
    }
}

proof fn lemma_past_gap(s: Seq<char>)
    ensures
        past_gap(s).len() <= s.len(),
    decreases s.len(),
{
    if s.len() > 0 && is_gap(s[0]) {
        lemma_past_gap(s.drop_first());
    }
}

proof fn lemma_member_is_shorter(s: Seq<char>)
    requires
        member_at(s) is Some,
        opens(member_at(s)->0.tail, ','),
    ensures
        past_gap(member_at(s)->0.tail.skip(1)).len() < s.len(),
{
    let m = member_at(s)->0;
    let quoted = first_value(s)->0;
    let colon = past_gap(rest(s, quoted.len()));
    lemma_past_gap(rest(s, quoted.len()));
    lemma_past_gap(rest(colon.skip(1), m.value.len()));
    lemma_past_gap(m.tail.skip(1));
}

#[via_fn]
proof fn members_end(s: Seq<char>) {
    if let Some(m) = member_at(s) {
        if opens(m.tail, ',') {
            lemma_member_is_shorter(s);
        }
    }
}

/// The members of an object as they are written, each a key and the text of a value; none where the
/// text is no object.
pub open spec fn members_in(text: Seq<char>) -> Option<Seq<(Seq<char>, Seq<char>)>> {
    let s = past_gap(text);
    if !opens(s, '{') {
        None
    } else {
        let first = past_gap(s.skip(1));
        if opens(first, '}') {
            if past_gap(first.skip(1)).len() == 0 {
                Some(Seq::empty())
            } else {
                None
            }
        } else {
            members_from(first)
        }
    }
}

/// The items that `s` begins with, up to the bracket that ends them and the text.
pub open spec fn items_from(s: Seq<char>) -> Option<Seq<Seq<char>>>
    decreases s.len() via items_end
{
    match first_value(s) {
        None => None,
        Some(value) => {
            let tail = past_gap(rest(s, value.len()));
            if opens(tail, ',') {
                match items_from(past_gap(tail.skip(1))) {
                    Some(others) => Some(seq![value] + others),
                    None => None,
                }
            } else if opens(tail, ']') && past_gap(tail.skip(1)).len() == 0 {
                Some(seq![value])
            } else {
                None
            }
        },
    }
}

#[via_fn]
proof fn items_end(s: Seq<char>) {
    if let Some(value) = first_value(s) {
        let tail = past_gap(rest(s, value.len()));
        if opens(tail, ',') {
            lemma_past_gap(rest(s, value.len()));
            lemma_past_gap(tail.skip(1));
        }
    }
}

/// The items of an array as they are written; none where the text is no array.
pub open spec fn items_in(text: Seq<char>) -> Option<Seq<Seq<char>>> {
    let s = past_gap(text);
    if !opens(s, '[') {
        None
    } else {
        let first = past_gap(s.skip(1));
        if opens(first, ']') {
            if past_gap(first.skip(1)).len() == 0 {
                Some(Seq::empty())
            } else {
                None
            }
        } else {
            items_from(first)
        }
    }
}

fn after_gap(s: &str) -> (r: &str)
    ensures
        r@ == past_gap(s@),
{
    let total: usize = s.unicode_len();
    let mut i: usize = 0;
    assert(s@.skip(0) =~= s@);
    while i < total
        invariant
            i <= total,
            total == s@.len(),
            past_gap(s@.skip(i as int)) == past_gap(s@),
        decreases total - i,
    {
        let c = s.get_char(i);
        assert(s@.skip(i as int)[0] == c);
        if !(c == ' ' || c == '\n' || c == '\t' || c == '\r') {
            let r = s.substring_char(i, total);
            assert(r@ =~= s@.skip(i as int));
            return r;
        }
        assert(s@.skip(i as int).drop_first() =~= s@.skip(i + 1));
        i += 1;
    }
    let r = s.substring_char(i, total);
    assert(r@ =~= s@.skip(i as int));
    r
}

fn begins_with(s: &str, c: char) -> (r: bool)
    ensures
        r == opens(s@, c),
{
    s.unicode_len() > 0 && s.get_char(0) == c
}

fn after_first(s: &str) -> (r: &str)
    requires
        s@.len() > 0,
    ensures
        r@ == s@.skip(1),
{
    let total: usize = s.unicode_len();
    let r = s.substring_char(1, total);
    assert(r@ =~= s@.skip(1));
    r
}

fn ends_after(s: &str) -> (r: bool)
    requires
        s@.len() > 0,
    ensures
        r == (past_gap(s@.skip(1)).len() == 0),
{
    after_gap(after_first(s)).unicode_len() == 0
}

fn cut<'a>(text: &'a str) -> (r: Option<(&'a str, &'a str)>)
    ensures
        match r {
            Some((head, tail)) => first_value(text@) == Some(head@) && tail@ == past_gap(
                rest(text@, head@.len()),
            ),
            None => first_value(text@) is None,
        },
{
    match cut_value(text) {
        Some((head, tail)) => {
            assert(rest(text@, head@.len()) =~= tail@);
            Some((head, after_gap(tail)))
        },
        None => None,
    }
}

fn read_member<'a>(s: &'a str) -> (r: Option<(String, &'a str, &'a str)>)
    ensures
        match r {
            Some((key, value, tail)) => member_at(s@) == Some(
                Written { key: key@, value: value@, tail: tail@ },
            ),
            None => member_at(s@) is None,
        },
{
    if !begins_with(s, '"') {
        return None;
    }
    match cut(s) {
        Some((quoted, colon)) => match parse_json(quoted) {
            Ok(Json::Text(key)) => {
                if !begins_with(colon, ':') {
                    return None;
                }
                match cut(after_first(colon)) {
                    Some((value, tail)) => Some((key, value, tail)),
                    None => None,
                }
            },
            _ => None,
        },
        None => None,
    }
}

/// The members of an object, each a key and the text of a value.
pub open spec fn pairs_view(members: Seq<(String, String)>) -> Seq<(Seq<char>, Seq<char>)> {
    Seq::new(members.len(), |i: int| (members[i].0@, members[i].1@))
}

/// What is written of an object, where `done` has been read and `more` follows.
spec fn joined_members(
    done: Seq<(Seq<char>, Seq<char>)>,
    more: Option<Seq<(Seq<char>, Seq<char>)>>,
) -> Option<Seq<(Seq<char>, Seq<char>)>> {
    match more {
        Some(m) => Some(done + m),
        None => None,
    }
}

/// Takes an object apart.
fn open_object(text: &str) -> (r: Option<Vec<(String, String)>>)
    ensures
        match r {
            Some(members) => members_in(text@) == Some(pairs_view(members@)),
            None => members_in(text@) is None,
        },
{
    let mut out: Vec<(String, String)> = Vec::new();
    let s = after_gap(text);
    if !begins_with(s, '{') {
        return None;
    }
    let mut at = after_gap(after_first(s));
    if begins_with(at, '}') {
        assert(pairs_view(out@) =~= Seq::empty());
        return if ends_after(at) {
            Some(out)
        } else {
            None
        };
    }
    proof {
        let whole = members_from(at@);
        if let Some(m) = whole {
            assert(pairs_view(out@) + m =~= m);
        }
    }
    loop
        invariant
            members_in(text@) == joined_members(pairs_view(out@), members_from(at@)),
        decreases at@.len(),
    {
        match read_member(at) {
            None => {
                return None;
            },
            Some((key, value, tail)) => {
                let ghost before = pairs_view(out@);
                let ghost one = seq![(key@, value@)];
                out.push((key, value.to_owned()));
                assert(pairs_view(out@) =~= before + one);
                if begins_with(tail, ',') {
                    let next = after_gap(after_first(tail));
                    proof {
                        if let Some(m) = members_from(next@) {
                            assert(before + (one + m) =~= pairs_view(out@) + m);
                        }
                        lemma_member_is_shorter(at@);
                    }
                    at = next;
                } else if begins_with(tail, '}') && ends_after(tail) {
                    return Some(out);
                } else {
                    return None;
                }
            },
        }
    }
}

/// The texts of the items of an array.
pub open spec fn texts_view(items: Seq<String>) -> Seq<Seq<char>> {
    Seq::new(items.len(), |i: int| items[i]@)
}

spec fn joined_items(done: Seq<Seq<char>>, more: Option<Seq<Seq<char>>>) -> Option<
    Seq<Seq<char>>,
> {
    match more {
        Some(m) => Some(done + m),
        None => None,
    }
}

/// Takes an array apart.
fn open_array(text: &str) -> (r: Option<Vec<String>>)
    ensures
        match r {
            Some(items) => items_in(text@) == Some(texts_view(items@)),
            None => items_in(text@) is None,
        },
{
    let mut out: Vec<String> = Vec::new();
    let s = after_gap(text);
    if !begins_with(s, '[') {
        return None;
    }
    let mut at = after_gap(after_first(s));
    if begins_with(at, ']') {
        assert(texts_view(out@) =~= Seq::empty());
        return if ends_after(at) {
            Some(out)
        } else {
            None
        };
    }
    proof {
        if let Some(m) = items_from(at@) {
            assert(texts_view(out@) + m =~= m);
        }
    }
    loop
        invariant
            items_in(text@) == joined_items(texts_view(out@), items_from(at@)),
        decreases at@.len(),
    {
        match cut(at) {
            None => {
                return None;
            },
            Some((value, tail)) => {
                let ghost before = texts_view(out@);
                let ghost one = seq![value@];
                out.push(value.to_owned());
                assert(texts_view(out@) =~= before + one);
                if begins_with(tail, ',') {
                    let next = after_gap(after_first(tail));
                    proof {
                        if let Some(m) = items_from(next@) {
                            assert(before + (one + m) =~= texts_view(out@) + m);
                        }
                        lemma_past_gap(rest(at@, value@.len()));
                        lemma_past_gap(tail@.skip(1));
                    }
                    at = next;
                } else if begins_with(tail, ']') && ends_after(tail) {
                    return Some(out);
                } else {
                    return None;
                }
            },
        }
    }
}

/// What a text is read for.
#[derive(Debug, Clone, Copy, PartialEq, Eq, Structural)]
pub enum Form {
    /// Any value, which stands inside that many others.
    Value(u8),
    /// A chunk of a streamed answer.
    Chunk,
    /// The choices of a chunk.
    Choices,
    /// A choice of a chunk.
    Choice,
    /// What a choice adds to the answer.
    Delta,
    /// A judge's reply.
    Reply,
}

impl Form {
    /// How many values a value of this form stands inside.
    pub open spec fn depth(self) -> nat {
        match self {
            Form::Value(n) => n as nat,
            Form::Chunk => 0,
            Form::Choices => 1,
            Form::Choice => 2,
            Form::Delta => 3,
            Form::Reply => 0,
        }
    }

    /// How many forms may stand inside each other in this one.
    pub open spec fn height(self) -> nat {
        match self {
            Form::Value(_) => 0,
            Form::Chunk => 4,
            Form::Choices => 3,
            Form::Choice => 2,
            Form::Delta => 1,
            Form::Reply => 1,
        }
    }

    fn depth_of(self) -> (r: u8)
        ensures
            r == self.depth(),
    {
        match self {
            Form::Value(n) => n,
            Form::Chunk => 0,
            Form::Choices => 1,
            Form::Choice => 2,
            Form::Delta => 3,
            Form::Reply => 0,
        }
    }
}

/// The fields of a record, each with the form of its value, in the order of their places.
pub open spec fn fields_of(form: Form) -> Seq<(Seq<char>, Form)> {
    match form {
        Form::Chunk => seq![
            ("choices"@, Form::Choices),
            ("id"@, Form::Value(1)),
            ("model"@, Form::Value(1)),
            ("provider"@, Form::Value(1)),
            ("usage"@, Form::Value(1)),
        ],
        Form::Choice => seq![
            ("delta"@, Form::Delta),
            ("finish_reason"@, Form::Value(3)),
            ("native_finish_reason"@, Form::Value(3)),
        ],
        Form::Delta => seq![
            ("content"@, Form::Value(4)),
            ("reasoning"@, Form::Value(4)),
            ("reasoning_details"@, Form::Value(4)),
            ("refusal"@, Form::Value(4)),
        ],
        Form::Reply => seq![
            ("score"@, Form::Value(1)),
            ("verdict"@, Form::Value(1)),
            ("confidence"@, Form::Value(1)),
            ("meta_prediction"@, Form::Value(1)),
            ("dimensions"@, Form::Value(1)),
            ("rationale"@, Form::Value(1)),
        ],
        _ => Seq::empty(),
    }
}

spec fn fields_view(fields: Seq<(&'static str, Form)>) -> Seq<(Seq<char>, Form)> {
    Seq::new(fields.len(), |i: int| (fields[i].0@, fields[i].1))
}

fn fields(form: Form) -> (r: Vec<(&'static str, Form)>)
    ensures
        fields_view(r@) == fields_of(form),
{
    let r = match form {
        Form::Chunk => vec![
            ("choices", Form::Choices),
            ("id", Form::Value(1)),
            ("model", Form::Value(1)),
            ("provider", Form::Value(1)),
            ("usage", Form::Value(1)),
        ],
        Form::Choice => vec![
            ("delta", Form::Delta),
            ("finish_reason", Form::Value(3)),
            ("native_finish_reason", Form::Value(3)),
        ],
        Form::Delta => vec![
            ("content", Form::Value(4)),
            ("reasoning", Form::Value(4)),
            ("reasoning_details", Form::Value(4)),
            ("refusal", Form::Value(4)),
        ],
        Form::Reply => vec![
            ("score", Form::Value(1)),
            ("verdict", Form::Value(1)),
            ("confidence", Form::Value(1)),
            ("meta_prediction", Form::Value(1)),
            ("dimensions", Form::Value(1)),
            ("rationale", Form::Value(1)),
        ],
        _ => Vec::new(),
    };
    assert(fields_view(r@) =~= fields_of(form));
    r
}

/// The place of the field with the name `key`.
pub open spec fn place_of(fields: Seq<(Seq<char>, Form)>, key: Seq<char>) -> Option<int>
    decreases fields.len(),
{
    if fields.len() == 0 {
        None
    } else {
        match place_of(fields.drop_last(), key) {
            Some(i) => Some(i),
            None => if fields.last().0 == key {
                Some(fields.len() - 1)
            } else {
                None
            },
        }
    }
}

proof fn lemma_place(fields: Seq<(Seq<char>, Form)>, key: Seq<char>)
    ensures
        match place_of(fields, key) {
            Some(i) => 0 <= i < fields.len() && fields[i].0 == key,
            None => forall|i: int| 0 <= i < fields.len() ==> (#[trigger] fields[i]).0 != key,
        },
    decreases fields.len(),
{
    if fields.len() > 0 {
        let before = fields.drop_last();
        lemma_place(before, key);
        match place_of(before, key) {
            Some(i) => {
                assert(before[i] == fields[i]);
            },
            None => {
                assert forall|i: int|
                    0 <= i < fields.len() - 1 implies (#[trigger] fields[i]).0 != key by {
                    assert(before[i] == fields[i]);
                }
            },
        }
    }
}

proof fn lemma_fields_are_lower(form: Form)
    ensures
        forall|i: int|
            0 <= i < fields_of(form).len() ==> (#[trigger] fields_of(form)[i]).1.height()
                < form.height(),
{
}

fn place(fields: &Vec<(&'static str, Form)>, key: &str) -> (r: Option<usize>)
    ensures
        match r {
            Some(i) => i < fields@.len() && place_of(fields_view(fields@), key@) == Some(i as int),
            None => place_of(fields_view(fields@), key@) is None,
        },
{
    let ghost view = fields_view(fields@);
    let mut i: usize = 0;
    assert(view.take(0) =~= Seq::empty());
    while i < fields.len()
        invariant
            i <= fields@.len(),
            view == fields_view(fields@),
            place_of(view.take(i as int), key@) is None,
        decreases fields@.len() - i,
    {
        assert(view.take(i + 1).drop_last() =~= view.take(i as int));
        if same_text(fields[i].0, key) {
            proof {
                lemma_place_stays(view, key@, i + 1);
            }
            return Some(i);
        }
        i += 1;
    }
    assert(view.take(i as int) =~= view);
    None
}

proof fn lemma_place_stays(fields: Seq<(Seq<char>, Form)>, key: Seq<char>, n: int)
    requires
        0 <= n <= fields.len(),
        place_of(fields.take(n), key) is Some,
    ensures
        place_of(fields, key) == place_of(fields.take(n), key),
    decreases fields.len() - n,
{
    if n < fields.len() {
        assert(fields.take(n + 1).drop_last() =~= fields.take(n));
        lemma_place_stays(fields, key, n + 1);
    } else {
        assert(fields.take(n) =~= fields);
    }
}

/// A text inside `n` arrays.
pub open spec fn inside(text: Seq<char>, n: nat) -> Seq<char>
    decreases n,
{
    if n == 0 {
        text
    } else {
        "["@ + inside(text, (n - 1) as nat) + "]"@
    }
}

/// The value inside `n` arrays of one item.
pub open spec fn innermost(j: JsonView, n: nat) -> Option<JsonView>
    decreases n,
{
    if n == 0 {
        Some(j)
    } else {
        match j {
            JsonView::Array(items) => if items.len() == 1 {
                innermost(items[0], (n - 1) as nat)
            } else {
                None
            },
            _ => None,
        }
    }
}

/// The value that a text encodes where it stands inside `n` others, or why it encodes none. Values may
/// nest only so deep, and those around it count.
pub open spec fn value_in(text: Seq<char>, n: nat) -> Result<JsonView, Seq<char>> {
    match decoded(inside(text, n)) {
        Ok(j) => match innermost(j, n) {
            Some(v) => Ok(v),
            None => Err("expected one value"@),
        },
        Err(e) => Err(e),
    }
}

/// Reads a value where it stands inside `n` others.
fn read_value(text: &str, n: u8) -> (r: Result<Json, String>)
    ensures
        match r {
            Ok(j) => value_in(text@, n as nat) == Ok::<JsonView, Seq<char>>(j@),
            Err(e) => value_in(text@, n as nat) == Err::<JsonView, Seq<char>>(e@),
        },
{
    let mut wrapped = text.to_owned();
    let mut i: u8 = 0;
    while i < n
        invariant
            i <= n,
            wrapped@ == inside(text@, i as nat),
        decreases n - i,
    {
        let mut outer = "[".to_owned();
        outer.append(wrapped.as_str());
        outer.append("]");
        wrapped = outer;
        i += 1;
    }
    let mut j = match parse_json(wrapped.as_str()) {
        Ok(j) => j,
        Err(e) => {
            return Err(e);
        },
    };
    let ghost whole = j@;
    while i > 0
        invariant
            innermost(whole, n as nat) == innermost(j@, i as nat),
            decoded(inside(text@, n as nat)) == Ok::<JsonView, Seq<char>>(whole),
        decreases i,
    {
        match j {
            Json::Array(items) => {
                let mut items = items;
                let ghost view = array_view(items@);
                proof {
                    lemma_array_view(items);
                }
                if items.len() != 1 {
                    return Err("expected one value".to_owned());
                }
                match items.pop() {
                    Some(item) => {
                        assert(view[0] == item@);
                        j = item;
                    },
                    None => {
                        return Err("expected one value".to_owned());
                    },
                }
            },
            _ => {
                return Err("expected one value".to_owned());
            },
        }
        i -= 1;
    }
    Ok(j)
}

/// What is read of a text for a form: of a record its fields, by name or by place, of a list its items,
/// each for its own form; of anything else the value. Members without a field are passed over.
pub open spec fn reading(text: Seq<char>, form: Form) -> Result<JsonView, Seq<char>>
    decreases form.height(), 1nat, 0nat,
{
    match form {
        Form::Value(n) => value_in(text, n as nat),
        Form::Choices => match items_in(text) {
            Some(items) => match list_reading(items) {
                Ok(read) => Ok(JsonView::Array(read)),
                Err(e) => Err(e),
            },
            None => value_in(text, form.depth()),
        },
        _ => match members_in(text) {
            Some(members) => match members_reading(members, form) {
                Ok(read) => Ok(JsonView::Object(read)),
                Err(e) => Err(e),
            },
            None => match items_in(text) {
                Some(items) => match places_reading(items, form) {
                    Ok(read) => Ok(JsonView::Array(read)),
                    Err(e) => Err(e),
                },
                None => value_in(text, form.depth()),
            },
        },
    }
}

/// What is read of the choices of a chunk.
pub open spec fn list_reading(items: Seq<Seq<char>>) -> Result<Seq<JsonView>, Seq<char>>
    decreases Form::Choices.height(), 0nat, items.len(),
{
    if items.len() == 0 {
        Ok(Seq::empty())
    } else {
        match list_reading(items.drop_last()) {
            Err(e) => Err(e),
            Ok(before) => match reading(items.last(), Form::Choice) {
                Ok(j) => Ok(before.push(j)),
                Err(e) => Err(e),
            },
        }
    }
}

/// What is read of the members of a record: those that it has fields for.
pub open spec fn members_reading(members: Seq<(Seq<char>, Seq<char>)>, form: Form) -> Result<
    Seq<(Seq<char>, JsonView)>,
    Seq<char>,
>
    decreases form.height(), 0nat, members.len() via members_reading_ends
{
    if members.len() == 0 {
        Ok(Seq::empty())
    } else {
        match members_reading(members.drop_last(), form) {
            Err(e) => Err(e),
            Ok(before) => match place_of(fields_of(form), members.last().0) {
                None => Ok(before),
                Some(i) => match reading(members.last().1, fields_of(form)[i].1) {
                    Ok(j) => Ok(before.push((members.last().0, j))),
                    Err(e) => Err(e),
                },
            },
        }
    }
}

#[via_fn]
proof fn members_reading_ends(members: Seq<(Seq<char>, Seq<char>)>, form: Form) {
    if members.len() > 0 {
        lemma_place(fields_of(form), members.last().0);
        lemma_fields_are_lower(form);
    }
}

/// What is read of the items of a record, each for the field in its place.
pub open spec fn places_reading(items: Seq<Seq<char>>, form: Form) -> Result<
    Seq<JsonView>,
    Seq<char>,
>
    decreases form.height(), 0nat, items.len() via places_reading_ends
{
    if items.len() == 0 {
        Ok(Seq::empty())
    } else {
        match places_reading(items.drop_last(), form) {
            Err(e) => Err(e),
            Ok(before) => if items.len() > fields_of(form).len() {
                Err("more items than fields"@)
            } else {
                match reading(items.last(), fields_of(form)[items.len() - 1].1) {
                    Ok(j) => Ok(before.push(j)),
                    Err(e) => Err(e),
                }
            },
        }
    }
}

#[via_fn]
proof fn places_reading_ends(items: Seq<Seq<char>>, form: Form) {
    lemma_fields_are_lower(form);
}

proof fn lemma_list_error(items: Seq<Seq<char>>, n: int)
    requires
        0 <= n <= items.len(),
        list_reading(items.take(n)) is Err,
    ensures
        list_reading(items) == list_reading(items.take(n)),
    decreases items.len() - n,
{
    if n < items.len() {
        assert(items.take(n + 1).drop_last() =~= items.take(n));
        lemma_list_error(items, n + 1);
    } else {
        assert(items.take(n) =~= items);
    }
}

proof fn lemma_members_error(members: Seq<(Seq<char>, Seq<char>)>, form: Form, n: int)
    requires
        0 <= n <= members.len(),
        members_reading(members.take(n), form) is Err,
    ensures
        members_reading(members, form) == members_reading(members.take(n), form),
    decreases members.len() - n,
{
    if n < members.len() {
        assert(members.take(n + 1).drop_last() =~= members.take(n));
        lemma_members_error(members, form, n + 1);
    } else {
        assert(members.take(n) =~= members);
    }
}

proof fn lemma_places_error(items: Seq<Seq<char>>, form: Form, n: int)
    requires
        0 <= n <= items.len(),
        places_reading(items.take(n), form) is Err,
    ensures
        places_reading(items, form) == places_reading(items.take(n), form),
    decreases items.len() - n,
{
    if n < items.len() {
        assert(items.take(n + 1).drop_last() =~= items.take(n));
        lemma_places_error(items, form, n + 1);
    } else {
        assert(items.take(n) =~= items);
    }
}

fn read_list(items: &Vec<String>) -> (r: Result<Vec<Json>, String>)
    ensures
        match r {
            Ok(read) => list_reading(texts_view(items@)) == Ok::<Seq<JsonView>, Seq<char>>(
                array_view(read@),
            ),
            Err(e) => list_reading(texts_view(items@)) == Err::<Seq<JsonView>, Seq<char>>(e@),
        },
    decreases Form::Choices.height(), 0nat,
{
    let ghost view = texts_view(items@);
    let mut out: Vec<Json> = Vec::new();
    let mut i: usize = 0;
    assert(view.take(0) =~= Seq::empty());
    assert(array_view(out@) =~= Seq::empty());
    while i < items.len()
        invariant
            i <= items@.len(),
            view == texts_view(items@),
            list_reading(view.take(i as int)) == Ok::<Seq<JsonView>, Seq<char>>(array_view(out@)),
        decreases items@.len() - i,
    {
        proof {
            assert(view.take(i + 1).drop_last() =~= view.take(i as int));
            assert(view.take(i + 1).last() == items@[i as int]@);
        }
        match read_as(items[i].as_str(), Form::Choice) {
            Ok(j) => {
                let ghost before = array_view(out@);
                out.push(j);
                assert(array_view(out@) =~= before.push(j@));
            },
            Err(e) => {
                proof {
                    lemma_list_error(view, i + 1);
                }
                return Err(e);
            },
        }
        i += 1;
    }
    assert(view.take(i as int) =~= view);
    Ok(out)
}

fn read_members(members: &Vec<(String, String)>, form: Form) -> (r: Result<
    Vec<(String, Json)>,
    String,
>)
    ensures
        match r {
            Ok(read) => members_reading(pairs_view(members@), form) == Ok::<
                Seq<(Seq<char>, JsonView)>,
                Seq<char>,
            >(object_view(read@)),
            Err(e) => members_reading(pairs_view(members@), form) == Err::<
                Seq<(Seq<char>, JsonView)>,
                Seq<char>,
            >(e@),
        },
    decreases form.height(), 0nat,
{
    let ghost view = pairs_view(members@);
    let known = fields(form);
    let mut out: Vec<(String, Json)> = Vec::new();
    let mut i: usize = 0;
    assert(view.take(0) =~= Seq::empty());
    assert(object_view(out@) =~= Seq::empty());
    proof {
        lemma_fields_are_lower(form);
    }
    while i < members.len()
        invariant
            i <= members@.len(),
            view == pairs_view(members@),
            fields_view(known@) == fields_of(form),
            forall|k: int|
                0 <= k < fields_of(form).len() ==> (#[trigger] fields_of(form)[k]).1.height()
                    < form.height(),
            members_reading(view.take(i as int), form) == Ok::<
                Seq<(Seq<char>, JsonView)>,
                Seq<char>,
            >(object_view(out@)),
        decreases members@.len() - i,
    {
        proof {
            assert(view.take(i + 1).drop_last() =~= view.take(i as int));
            assert(view.take(i + 1).last() == (members@[i as int].0@, members@[i as int].1@));
        }
        if let Some(p) = place(&known, members[i].0.as_str()) {
            assert(fields_of(form)[p as int] == (known@[p as int].0@, known@[p as int].1));
            match read_as(members[i].1.as_str(), known[p].1) {
                Ok(j) => {
                    let ghost before = object_view(out@);
                    let key = members[i].0.clone();
                    out.push((key, j));
                    assert(object_view(out@) =~= before.push((key@, j@)));
                },
                Err(e) => {
                    proof {
                        lemma_members_error(view, form, i + 1);
                    }
                    return Err(e);
                },
            }
        }
        i += 1;
    }
    assert(view.take(i as int) =~= view);
    Ok(out)
}

fn read_places(items: &Vec<String>, form: Form) -> (r: Result<Vec<Json>, String>)
    ensures
        match r {
            Ok(read) => places_reading(texts_view(items@), form) == Ok::<Seq<JsonView>, Seq<char>>(
                array_view(read@),
            ),
            Err(e) => places_reading(texts_view(items@), form) == Err::<Seq<JsonView>, Seq<char>>(
                e@,
            ),
        },
    decreases form.height(), 0nat,
{
    let ghost view = texts_view(items@);
    let known = fields(form);
    let mut out: Vec<Json> = Vec::new();
    let mut i: usize = 0;
    assert(view.take(0) =~= Seq::empty());
    assert(array_view(out@) =~= Seq::empty());
    proof {
        lemma_fields_are_lower(form);
    }
    while i < items.len()
        invariant
            i <= items@.len(),
            view == texts_view(items@),
            fields_view(known@) == fields_of(form),
            forall|k: int|
                0 <= k < fields_of(form).len() ==> (#[trigger] fields_of(form)[k]).1.height()
                    < form.height(),
            places_reading(view.take(i as int), form) == Ok::<Seq<JsonView>, Seq<char>>(
                array_view(out@),
            ),
        decreases items@.len() - i,
    {
        proof {
            assert(view.take(i + 1).drop_last() =~= view.take(i as int));
            assert(view.take(i + 1).last() == items@[i as int]@);
        }
        if i >= known.len() {
            proof {
                lemma_places_error(view, form, i + 1);
            }
            return Err("more items than fields".to_owned());
        }
        assert(fields_of(form)[i as int] == (known@[i as int].0@, known@[i as int].1));
        match read_as(items[i].as_str(), known[i].1) {
            Ok(j) => {
                let ghost before = array_view(out@);
                out.push(j);
                assert(array_view(out@) =~= before.push(j@));
            },
            Err(e) => {
                proof {
                    lemma_places_error(view, form, i + 1);
                }
                return Err(e);
            },
        }
        i += 1;
    }
    assert(view.take(i as int) =~= view);
    Ok(out)
}

/// Reads a text for a form.
pub fn read_as(text: &str, form: Form) -> (r: Result<Json, String>)
    ensures
        match r {
            Ok(j) => reading(text@, form) == Ok::<JsonView, Seq<char>>(j@),
            Err(e) => reading(text@, form) == Err::<JsonView, Seq<char>>(e@),
        },
    decreases form.height(), 1nat,
{
    match form {
        Form::Value(n) => {
            return read_value(text, n);
        },
        Form::Choices => {
            if let Some(items) = open_array(text) {
                return match read_list(&items) {
                    Ok(read) => {
                        proof {
                            lemma_array_view(read);
                        }
                        Ok(Json::Array(read))
                    },
                    Err(e) => Err(e),
                };
            }
        },
        _ => {
            if let Some(members) = open_object(text) {
                return match read_members(&members, form) {
                    Ok(read) => {
                        proof {
                            lemma_object_view(read);
                        }
                        Ok(Json::Object(read))
                    },
                    Err(e) => Err(e),
                };
            }
            if let Some(items) = open_array(text) {
                return match read_places(&items, form) {
                    Ok(read) => {
                        proof {
                            lemma_array_view(read);
                        }
                        Ok(Json::Array(read))
                    },
                    Err(e) => Err(e),
                };
            }
        },
    }
    read_value(text, form.depth_of())
}

/// What a record holds in a field: an object under its name, an array in its place.
pub open spec fn field(j: JsonView, name: Seq<char>, place: int) -> Option<JsonView> {
    match j {
        JsonView::Object(members) => lookup(members, name),
        JsonView::Array(items) => if 0 <= place < items.len() {
            Some(items[place])
        } else {
            None
        },
        _ => None,
    }
}

/// What a record holds in a field.
pub fn read_field<'a>(j: &'a Json, name: &str, place: usize) -> (r: Option<&'a Json>)
    ensures
        match r {
            Some(v) => field(j@, name@, place as int) == Some(v@),
            None => field(j@, name@, place as int) is None,
        },
{
    match j {
        Json::Array(items) => {
            proof {
                lemma_array_view(*items);
            }
            if place < items.len() {
                Some(&items[place])
            } else {
                None
            }
        },
        _ => j.get(name),
    }
}

/// Whether a field is given twice.
pub open spec fn repeats(members: Seq<(Seq<char>, JsonView)>, form: Form) -> bool {
    exists|i: int, k: int|
        0 <= i < k < members.len() && (#[trigger] members[i]).0 == (#[trigger] members[k]).0
            && place_of(fields_of(form), members[i].0) is Some
}

/// Why a value is no record of this form, where it is none: it is neither an object nor an array, gives
/// a field twice, or has more items than there are fields.
pub open spec fn record_fault(j: JsonView, form: Form) -> Option<Seq<char>> {
    match j {
        JsonView::Object(members) => if repeats(members, form) {
            Some("a field is given twice"@)
        } else {
            None
        },
        JsonView::Array(items) => if items.len() > fields_of(form).len() {
            Some("more items than fields"@)
        } else {
            None
        },
        _ => Some("expected an object"@),
    }
}

fn gives_twice(members: &Vec<(String, Json)>, form: Form) -> (r: bool)
    ensures
        r == repeats(object_view(members@), form),
{
    let ghost view = object_view(members@);
    let known = fields(form);
    let mut k: usize = 0;
    while k < members.len()
        invariant
            k <= members@.len(),
            view == object_view(members@),
            fields_view(known@) == fields_of(form),
            forall|i: int, j: int|
                0 <= i < j < k && (#[trigger] view[i]).0 == (#[trigger] view[j]).0 ==> place_of(
                    fields_of(form),
                    view[i].0,
                ) is None,
        decreases members@.len() - k,
    {
        if place(&known, members[k].0.as_str()).is_some() {
            let mut i: usize = 0;
            while i < k
                invariant
                    i <= k < members@.len(),
                    view == object_view(members@),
                    place_of(fields_of(form), view[k as int].0) is Some,
                    forall|j: int| 0 <= j < i ==> (#[trigger] view[j]).0 != view[k as int].0,
                decreases k - i,
            {
                if same_text(members[i].0.as_str(), members[k].0.as_str()) {
                    assert(view[i as int].0 == view[k as int].0);
                    return true;
                }
                i += 1;
            }
        }
        k += 1;
    }
    false
}

/// Why a value is no record of this form, where it is none.
pub fn find_fault(j: &Json, form: Form) -> (r: Option<String>)
    ensures
        r.deep_view() == record_fault(j@, form),
{
    match j {
        Json::Object(members) => {
            proof {
                lemma_object_view(*members);
            }
            if gives_twice(members, form) {
                Some("a field is given twice".to_owned())
            } else {
                None
            }
        },
        Json::Array(items) => {
            let known = fields(form);
            proof {
                lemma_array_view(*items);
                assert(known@.len() == fields_of(form).len());
            }
            if items.len() > known.len() {
                Some("more items than fields".to_owned())
            } else {
                None
            }
        },
        _ => Some("expected an object".to_owned()),
    }
}

/// Whether two records agree in every field but the one in place `but`.
pub open spec fn alike_but(a: JsonView, b: JsonView, form: Form, but: int) -> bool {
    record_fault(a, form) is None && record_fault(b, form) is None && forall|i: int|
        0 <= i < fields_of(form).len() && i != but ==> field(a, (#[trigger] fields_of(form)[i]).0, i)
            == field(b, fields_of(form)[i].0, i)
}

/// Which fields each record has, and in which places.
pub proof fn every_field_has_its_place()
    ensures
        fields_of(Form::Chunk).len() == 5,
        place_of(fields_of(Form::Chunk), "choices"@) == Some(0int),
        place_of(fields_of(Form::Chunk), "id"@) == Some(1int),
        place_of(fields_of(Form::Chunk), "model"@) == Some(2int),
        place_of(fields_of(Form::Chunk), "provider"@) == Some(3int),
        place_of(fields_of(Form::Chunk), "usage"@) == Some(4int),
        fields_of(Form::Chunk)[0].1 == Form::Choices,
        fields_of(Form::Choice).len() == 3,
        place_of(fields_of(Form::Choice), "delta"@) == Some(0int),
        place_of(fields_of(Form::Choice), "finish_reason"@) == Some(1int),
        place_of(fields_of(Form::Choice), "native_finish_reason"@) == Some(2int),
        fields_of(Form::Choice)[0].1 == Form::Delta,
        fields_of(Form::Delta).len() == 4,
        place_of(fields_of(Form::Delta), "content"@) == Some(0int),
        place_of(fields_of(Form::Delta), "reasoning"@) == Some(1int),
        place_of(fields_of(Form::Delta), "reasoning_details"@) == Some(2int),
        place_of(fields_of(Form::Delta), "refusal"@) == Some(3int),
        fields_of(Form::Reply).len() == 6,
        place_of(fields_of(Form::Reply), "score"@) == Some(0int),
        place_of(fields_of(Form::Reply), "verdict"@) == Some(1int),
        place_of(fields_of(Form::Reply), "confidence"@) == Some(2int),
        place_of(fields_of(Form::Reply), "meta_prediction"@) == Some(3int),
        place_of(fields_of(Form::Reply), "dimensions"@) == Some(4int),
        place_of(fields_of(Form::Reply), "rationale"@) == Some(5int),
{
    lemma_names_differ();
    let chunk = fields_of(Form::Chunk);
    let choice = fields_of(Form::Choice);
    let delta = fields_of(Form::Delta);
    let reply = fields_of(Form::Reply);
    lemma_place_is(chunk, 0);
    lemma_place_is(chunk, 1);
    lemma_place_is(chunk, 2);
    lemma_place_is(chunk, 3);
    lemma_place_is(chunk, 4);
    lemma_place_is(choice, 0);
    lemma_place_is(choice, 1);
    lemma_place_is(choice, 2);
    lemma_place_is(delta, 0);
    lemma_place_is(delta, 1);
    lemma_place_is(delta, 2);
    lemma_place_is(delta, 3);
    lemma_place_is(reply, 0);
    lemma_place_is(reply, 1);
    lemma_place_is(reply, 2);
    lemma_place_is(reply, 3);
    lemma_place_is(reply, 4);
    lemma_place_is(reply, 5);
}

proof fn lemma_names_differ()
    ensures
        forall|form: Form, i: int, k: int|
            0 <= i < k < fields_of(form).len() ==> (#[trigger] fields_of(form)[i]).0 != (
            #[trigger] fields_of(form)[k]).0,
{
    reveal_strlit("choices");
    reveal_strlit("id");
    reveal_strlit("model");
    reveal_strlit("provider");
    reveal_strlit("usage");
    reveal_strlit("delta");
    reveal_strlit("finish_reason");
    reveal_strlit("native_finish_reason");
    reveal_strlit("content");
    reveal_strlit("reasoning");
    reveal_strlit("reasoning_details");
    reveal_strlit("refusal");
    reveal_strlit("score");
    reveal_strlit("verdict");
    reveal_strlit("confidence");
    reveal_strlit("meta_prediction");
    reveal_strlit("dimensions");
    reveal_strlit("rationale");
    assert("choices"@[0] == 'c' && "id"@[0] == 'i' && "model"@[0] == 'm' && "provider"@[0] == 'p'
        && "usage"@[0] == 'u');
    assert("delta"@[0] == 'd' && "finish_reason"@[0] == 'f' && "native_finish_reason"@[0] == 'n');
    assert("content"@[0] == 'c' && "reasoning"@.len() == 9 && "reasoning_details"@.len() == 17
        && "refusal"@.len() == 7 && "content"@.len() == 7 && "refusal"@[0] == 'r');
    assert("score"@[0] == 's' && "verdict"@[0] == 'v' && "confidence"@[0] == 'c'
        && "meta_prediction"@[0] == 'm' && "dimensions"@[0] == 'd' && "rationale"@[0] == 'r');
}

proof fn lemma_place_is(fields: Seq<(Seq<char>, Form)>, i: int)
    requires
        0 <= i < fields.len(),
        forall|k: int| 0 <= k < i ==> (#[trigger] fields[k]).0 != fields[i].0,
    ensures
        place_of(fields, fields[i].0) == Some(i),
    decreases fields.len(),
{
    let before = fields.drop_last();
    if i < before.len() {
        assert(before[i] == fields[i]);
        assert forall|k: int| 0 <= k < i implies (#[trigger] before[k]).0 != before[i].0 by {
            assert(before[k] == fields[k]);
        }
        lemma_place_is(before, i);
    } else {
        lemma_place(before, fields[i].0);
        if let Some(k) = place_of(before, fields[i].0) {
            assert(before[k] == fields[k]);
        }
    }
}

/// Every choice of a chunk is read, in order, or none.
pub proof fn every_item_is_read(items: Seq<Seq<char>>)
    ensures
        match list_reading(items) {
            Ok(read) => read.len() == items.len() && forall|i: int|
                0 <= i < items.len() ==> reading(items[i], Form::Choice) == Ok::<JsonView, Seq<char>>(
                    #[trigger] read[i],
                ),
            Err(_) => exists|i: int|
                0 <= i < items.len() && reading(#[trigger] items[i], Form::Choice) is Err,
        },
    decreases items.len(),
{
    if items.len() > 0 {
        let before = items.drop_last();
        every_item_is_read(before);
        match list_reading(before) {
            Ok(most) => match list_reading(items) {
                Ok(read) => {
                    assert forall|i: int| 0 <= i < items.len() implies reading(items[i], Form::Choice)
                        == Ok::<JsonView, Seq<char>>(#[trigger] read[i]) by {
                        if i < before.len() {
                            assert(most[i] == read[i]);
                            assert(before[i] == items[i]);
                        }
                    }
                },
                Err(_) => {
                    assert(reading(items[items.len() - 1], Form::Choice) is Err);
                },
            },
            Err(_) => {
                let i = choose|i: int|
                    0 <= i < before.len() && reading(#[trigger] before[i], Form::Choice) is Err;
                assert(items[i] == before[i]);
            },
        }
    }
}

/// Of an object every member that the record has a field for is read, in the order in which it is
/// written, and every other is passed over.
pub proof fn known_members_are_read_in_order(
    a: Seq<(Seq<char>, Seq<char>)>,
    b: Seq<(Seq<char>, Seq<char>)>,
    key: Seq<char>,
    value: Seq<char>,
    form: Form,
)
    ensures
        match (members_reading(a, form), members_reading(b, form)) {
            (Ok(x), Ok(y)) => members_reading(a + b, form) == Ok::<
                Seq<(Seq<char>, JsonView)>,
                Seq<char>,
            >(x + y),
            _ => members_reading(a + b, form) is Err,
        },
        place_of(fields_of(form), key) is None ==> members_reading(seq![(key, value)], form) == Ok::<
            Seq<(Seq<char>, JsonView)>,
            Seq<char>,
        >(Seq::empty()),
        place_of(fields_of(form), key) matches Some(i) ==> (match reading(value, fields_of(form)[i].1) {
            Ok(j) => members_reading(seq![(key, value)], form) == Ok::<
                Seq<(Seq<char>, JsonView)>,
                Seq<char>,
            >(seq![(key, j)]),
            Err(e) => members_reading(seq![(key, value)], form) is Err,
        }),
    decreases b.len(),
{
    let one = seq![(key, value)];
    assert(one.drop_last() =~= Seq::empty());
    assert(members_reading(one.drop_last(), form) == Ok::<Seq<(Seq<char>, JsonView)>, Seq<char>>(
        Seq::empty(),
    ));
    assert(one.last() == (key, value));
    if let Some(i) = place_of(fields_of(form), key) {
        if let Ok(j) = reading(value, fields_of(form)[i].1) {
            assert(Seq::empty().push((key, j)) =~= seq![(key, j)]);
        }
    }
    if b.len() == 0 {
        assert(a + b =~= a);
        if let Ok(x) = members_reading(a, form) {
            assert(x + Seq::<(Seq<char>, JsonView)>::empty() =~= x);
        }
    } else {
        known_members_are_read_in_order(a, b.drop_last(), key, value, form);
        assert((a + b).drop_last() =~= a + b.drop_last());
        assert((a + b).last() == b.last());
        if let (Ok(x), Ok(y)) = (members_reading(a, form), members_reading(b.drop_last(), form)) {
            if let Ok(z) = members_reading(b, form) {
                if z != y {
                    assert((x + y).push(z.last()) =~= x + z);
                }
            }
        }
    }
}

/// An object is split at the commas and colons between what is passed over as values: a key, a colon and a
/// value make a member, a comma leads to the next, and the brace that ends them ends the text, white space
/// aside.
pub proof fn an_object_is_split_between_its_values(
    quoted: Seq<char>,
    key: Seq<char>,
    value: Seq<char>,
    behind: Seq<char>,
)
    requires
        opens(quoted, '"'),
        decoded(quoted) == Ok::<JsonView, Seq<char>>(JsonView::Text(key)),
    ensures
        first_value(quoted + seq![':'] + value + seq![','] + behind) == Some(quoted) && first_value(
            value + seq![','] + behind,
        ) == Some(value) ==> members_from(quoted + seq![':'] + value + seq![','] + behind) == (
        match members_from(past_gap(behind)) {
            Some(others) => Some(seq![(key, value)] + others),
            None => None,
        }),
        first_value(quoted + seq![':'] + value + seq!['}'] + behind) == Some(quoted) && first_value(
            value + seq!['}'] + behind,
        ) == Some(value) ==> members_from(quoted + seq![':'] + value + seq!['}'] + behind) == (
        if past_gap(behind).len() == 0 {
            Some(seq![(key, value)])
        } else {
            None
        }),
{
    let s = quoted + seq![':'] + value + seq![','] + behind;
    let t = value + seq![','] + behind;
    assert(rest(s, quoted.len()) =~= seq![':'] + t);
    assert((seq![':'] + t).skip(1) =~= t);
    assert(rest(t, value.len()) =~= seq![','] + behind);
    assert((seq![','] + behind).skip(1) =~= behind);
    assert(s[0] == quoted[0]);
    let e = quoted + seq![':'] + value + seq!['}'] + behind;
    let f = value + seq!['}'] + behind;
    assert(rest(e, quoted.len()) =~= seq![':'] + f);
    assert((seq![':'] + f).skip(1) =~= f);
    assert(rest(f, value.len()) =~= seq!['}'] + behind);
    assert((seq!['}'] + behind).skip(1) =~= behind);
    assert(e[0] == quoted[0]);
    if first_value(s) == Some(quoted) && first_value(t) == Some(value) {
        assert(member_at(s) == Some(Written { key, value, tail: seq![','] + behind }));
    }
    if first_value(e) == Some(quoted) && first_value(f) == Some(value) {
        assert(member_at(e) == Some(Written { key, value, tail: seq!['}'] + behind }));
    }
}

/// An array is split at the commas between what is passed over as values, and the bracket that ends them
/// ends the text, white space aside.
pub proof fn an_array_is_split_between_its_values(value: Seq<char>, behind: Seq<char>)
    ensures
        first_value(value + seq![','] + behind) == Some(value) ==> items_from(
            value + seq![','] + behind,
        ) == (match items_from(past_gap(behind)) {
            Some(others) => Some(seq![value] + others),
            None => None,
        }),
        first_value(value + seq![']'] + behind) == Some(value) ==> items_from(
            value + seq![']'] + behind,
        ) == (if past_gap(behind).len() == 0 {
            Some(seq![value])
        } else {
            None
        }),
{
    let s = value + seq![','] + behind;
    assert(rest(s, value.len()) =~= seq![','] + behind);
    assert((seq![','] + behind).skip(1) =~= behind);
    let e = value + seq![']'] + behind;
    assert(rest(e, value.len()) =~= seq![']'] + behind);
    assert((seq![']'] + behind).skip(1) =~= behind);
}

/// A record in which a field is given twice, or for which there are too many items, is none, and neither
/// is anything that is no object and no array; any other is one, and what it holds in a field is what
/// stands under its name or in its place.
pub proof fn a_record_gives_each_field_once(
    members: Seq<(Seq<char>, JsonView)>,
    items: Seq<JsonView>,
    form: Form,
    name: Seq<char>,
    place: int,
)
    ensures
        record_fault(JsonView::Object(members), form) is Some <==> exists|i: int, k: int|
            0 <= i < k < members.len() && (#[trigger] members[i]).0 == (#[trigger] members[k]).0
                && exists|f: int|
                0 <= f < fields_of(form).len() && (#[trigger] fields_of(form)[f]).0 == members[i].0,
        record_fault(JsonView::Array(items), form) is Some <==> items.len() > fields_of(form).len(),
        record_fault(JsonView::Null, form) is Some,
        field(JsonView::Object(members), name, place) == lookup(members, name),
        0 <= place < items.len() ==> field(JsonView::Array(items), name, place) == Some(items[place]),
        !(0 <= place < items.len()) ==> field(JsonView::Array(items), name, place) is None,
{
    assert forall|i: int| 0 <= i < members.len() implies (place_of(
        fields_of(form),
        (#[trigger] members[i]).0,
    ) is Some) == (exists|f: int|
        0 <= f < fields_of(form).len() && (#[trigger] fields_of(form)[f]).0 == members[i].0) by {
        lemma_place(fields_of(form), members[i].0);
    }
}

} // verus!
