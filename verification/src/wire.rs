//! JSON documents that the library writes.
//!
//! An [`Outbound`] may hold doubles of the library's own, which a JSON value read off the wire
//! never does; turning it into text is left to the caller.

use vstd::prelude::*;

use crate::double::Double;
use crate::json::{Json, JsonView};
use crate::schema::message::{
    Content,
    ContentPart,
    ContentPartView,
    ContentView,
    FunctionCallView,
    Message,
    MessageView,
    ReasoningDetail,
    ReasoningDetailView,
    Role,
    ToolCall,
    ToolCallView,
};
use crate::text::same_text;

verus! {

/// A JSON document to be written.
#[derive(Debug, PartialEq)]
pub enum Outbound {
    /// `null`.
    Null,
    /// `true` or `false`.
    Bool(bool),
    /// An integer that is not negative.
    Unsigned(u64),
    /// An integer.
    Signed(i64),
    /// A double; one that is not finite is written as `null`.
    Double(Double),
    /// A string.
    Text(String),
    /// An array.
    Array(Vec<Outbound>),
    /// An object.
    Object(Vec<(String, Outbound)>),
    /// A value passed through as it came.
    Raw(Json),
}

/// What a document is, as mathematics.
#[verifier::ext_equal]
pub enum OutboundView {
    Null,
    Bool(bool),
    Unsigned(u64),
    Signed(i64),
    Double(Double),
    Text(Seq<char>),
    Array(Seq<OutboundView>),
    Object(Seq<(Seq<char>, OutboundView)>),
    Raw(JsonView),
}

/// The document that `o` stands for.
pub open spec fn outbound_view(o: Outbound) -> OutboundView
    decreases o,
{
    match o {
        Outbound::Null => OutboundView::Null,
        Outbound::Bool(b) => OutboundView::Bool(b),
        Outbound::Unsigned(n) => OutboundView::Unsigned(n),
        Outbound::Signed(n) => OutboundView::Signed(n),
        Outbound::Double(d) => OutboundView::Double(d),
        Outbound::Text(s) => OutboundView::Text(s@),
        Outbound::Array(items) => OutboundView::Array(
            Seq::new(
                items@.len(),
                |i: int|
                    if 0 <= i < items@.len() {
                        outbound_view(items@[i])
                    } else {
                        OutboundView::Null
                    },
            ),
        ),
        Outbound::Object(members) => OutboundView::Object(
            Seq::new(
                members@.len(),
                |i: int|
                    if 0 <= i < members@.len() {
                        (members@[i].0@, outbound_view(members@[i].1))
                    } else {
                        (Seq::empty(), OutboundView::Null)
                    },
            ),
        ),
        Outbound::Raw(j) => OutboundView::Raw(j@),
    }
}

impl View for Outbound {
    type V = OutboundView;

    open spec fn view(&self) -> OutboundView {
        outbound_view(*self)
    }
}

/// The items of an array, each as the document it stands for.
pub open spec fn items_view(items: Seq<Outbound>) -> Seq<OutboundView> {
    Seq::new(items.len(), |i: int| outbound_view(items[i]))
}

/// The members of an object, each as the key and the document it stands for.
pub open spec fn members_view(members: Seq<(String, Outbound)>) -> Seq<(Seq<char>, OutboundView)> {
    Seq::new(members.len(), |i: int| (members[i].0@, outbound_view(members[i].1)))
}

/// An array stands for the array of what its items stand for.
pub proof fn lemma_items_view(items: Vec<Outbound>)
    ensures
        outbound_view(Outbound::Array(items)) == OutboundView::Array(items_view(items@)),
{
    match outbound_view(Outbound::Array(items)) {
        OutboundView::Array(s) => {
            assert(s =~= items_view(items@));
        },
        _ => {},
    }
}

/// An object stands for the object of what its members stand for.
pub proof fn lemma_members_view(members: Vec<(String, Outbound)>)
    ensures
        outbound_view(Outbound::Object(members)) == OutboundView::Object(members_view(members@)),
{
    match outbound_view(Outbound::Object(members)) {
        OutboundView::Object(s) => {
            assert(s =~= members_view(members@));
        },
        _ => {},
    }
}

/// An object under construction.
pub struct ObjectBuilder {
    members: Vec<(String, Outbound)>,
}

impl View for ObjectBuilder {
    type V = Seq<(Seq<char>, OutboundView)>;

    closed spec fn view(&self) -> Seq<(Seq<char>, OutboundView)> {
        members_view(self.members@)
    }
}

impl ObjectBuilder {
    /// An object without members.
    pub fn new() -> (b: ObjectBuilder)
        ensures
            b@ == Seq::<(Seq<char>, OutboundView)>::empty(),
    {
        let b = ObjectBuilder { members: Vec::new() };
        assert(members_view(b.members@) =~= Seq::empty());
        b
    }

    /// Adds a member.
    pub fn put(&mut self, key: &str, value: Outbound)
        ensures
            final(self)@ == old(self)@.push((key@, value@)),
    {
        let ghost before = members_view(self.members@);
        self.members.push((key.to_owned(), value));
        assert(members_view(self.members@) =~= before.push((key@, value@)));
    }

    /// Adds a member that holds text.
    pub fn put_text(&mut self, key: &str, value: &str)
        ensures
            final(self)@ == old(self)@.push((key@, OutboundView::Text(value@))),
    {
        self.put(key, Outbound::Text(value.to_owned()));
    }

    /// Adds a member that holds text, where there is text.
    pub fn put_optional(&mut self, key: &str, value: &Option<String>)
        ensures
            final(self)@ == old(self)@ + optional_text(key@, value.deep_view()),
    {
        match value {
            Some(v) => {
                self.put_text(key, v.as_str());
            },
            None => {
                assert(self@ + Seq::<(Seq<char>, OutboundView)>::empty() =~= self@);
            },
        }
    }

    /// Adds a member, where there is a value for it.
    pub fn put_some(&mut self, key: &str, value: Option<Outbound>)
        ensures
            final(self)@ == old(self)@ + optional_member(key@, some_view(value)),
    {
        match value {
            Some(v) => {
                self.put(key, v);
            },
            None => {
                assert(self@ + Seq::<(Seq<char>, OutboundView)>::empty() =~= self@);
            },
        }
    }

    /// The finished object.
    pub fn finish(self) -> (o: Outbound)
        ensures
            o@ == OutboundView::Object(self@),
    {
        proof {
            lemma_members_view(self.members);
        }
        Outbound::Object(self.members)
    }
}

/// The member `key` where there is text for it, nothing otherwise.
pub open spec fn optional_text(key: Seq<char>, value: Option<Seq<char>>) -> Seq<
    (Seq<char>, OutboundView),
> {
    match value {
        Some(v) => seq![(key, OutboundView::Text(v))],
        None => Seq::empty(),
    }
}

/// The member `key` where there is a value for it, nothing otherwise.
pub open spec fn optional_member(key: Seq<char>, value: Option<OutboundView>) -> Seq<
    (Seq<char>, OutboundView),
> {
    match value {
        Some(v) => seq![(key, v)],
        None => Seq::empty(),
    }
}

/// What an optional document stands for.
pub open spec fn some_view(value: Option<Outbound>) -> Option<OutboundView> {
    match value {
        Some(v) => Some(outbound_view(v)),
        None => None,
    }
}

impl Outbound {
    /// The member `key` of an object, the first where several have that key.
    pub fn get(&self, key: &str) -> (r: Option<&Outbound>)
        ensures
            match self@ {
                OutboundView::Object(members) => match r {
                    Some(v) => exists|i: int|
                        0 <= i < members.len() && #[trigger] members[i] == (key@, v@) && forall|k: int|
                            0 <= k < i ==> (#[trigger] members[k]).0 != key@,
                    None => forall|i: int| 0 <= i < members.len() ==> (#[trigger] members[i]).0 != key@,
                },
                _ => r is None,
            },
    {
        match self {
            Outbound::Object(members) => {
                let ghost view = members_view(members@);
                proof {
                    lemma_members_view(*members);
                }
                let mut i: usize = 0;
                while i < members.len()
                    invariant
                        i <= members@.len(),
                        view == members_view(members@),
                        self@ == OutboundView::Object(view),
                        forall|k: int| 0 <= k < i ==> (#[trigger] view[k]).0 != key@,
                    decreases members@.len() - i,
                {
                    if same_text(members[i].0.as_str(), key) {
                        let found = &members[i].1;
                        assert(view[i as int] == (key@, outbound_view(*found)));
                        assert(self@->Object_0[i as int] == (key@, found@));
                        return Some(found);
                    }
                    i += 1;
                }
                None
            },
            _ => None,
        }
    }
}

/// The wire spelling of a role.
pub open spec fn role_spelling(role: Role) -> Seq<char> {
    match role {
        Role::System => "system"@,
        Role::Developer => "developer"@,
        Role::User => "user"@,
        Role::Assistant => "assistant"@,
        Role::Tool => "tool"@,
    }
}

/// The wire spelling of a role.
pub fn role_word(role: Role) -> (r: &'static str)
    ensures
        r@ == role_spelling(role),
{
    match role {
        Role::System => "system",
        Role::Developer => "developer",
        Role::User => "user",
        Role::Assistant => "assistant",
        Role::Tool => "tool",
    }
}

/// The wire form of a content part.
pub open spec fn part_wire(p: ContentPartView) -> OutboundView {
    match p {
        ContentPartView::Text(text) => OutboundView::Object(
            seq![("type"@, OutboundView::Text("text"@)), ("text"@, OutboundView::Text(text))],
        ),
        ContentPartView::ImageUrl(url) => OutboundView::Object(
            seq![
                ("type"@, OutboundView::Text("image_url"@)),
                ("image_url"@, OutboundView::Text(url)),
            ],
        ),
    }
}

fn write_part(p: &ContentPart) -> (o: Outbound)
    ensures
        o@ == part_wire(p.deep_view()),
{
    let mut b = ObjectBuilder::new();
    match p {
        ContentPart::Text { text } => {
            b.put_text("type", "text");
            b.put_text("text", text.as_str());
        },
        ContentPart::ImageUrl { image_url } => {
            b.put_text("type", "image_url");
            b.put_text("image_url", image_url.as_str());
        },
    }
    assert(b@ =~= part_wire(p.deep_view())->Object_0);
    b.finish()
}

/// The wire form of a content: absent content is `null`, not an empty string.
pub open spec fn content_wire(c: ContentView) -> OutboundView {
    match c {
        ContentView::Text(text) => OutboundView::Text(text),
        ContentView::Parts(parts) => OutboundView::Array(
            parts.map_values(|p: ContentPartView| part_wire(p)),
        ),
        ContentView::Null => OutboundView::Null,
    }
}

fn write_content(c: &Content) -> (o: Outbound)
    ensures
        o@ == content_wire(c.deep_view()),
{
    match c {
        Content::Text(text) => Outbound::Text(text.clone()),
        Content::Parts(parts) => {
            let mut items: Vec<Outbound> = Vec::new();
            let mut i: usize = 0;
            while i < parts.len()
                invariant
                    i <= parts@.len(),
                    items@.len() == i,
                    forall|k: int|
                        0 <= k < i ==> outbound_view(#[trigger] items@[k]) == part_wire(
                            parts@[k].deep_view(),
                        ),
                decreases parts@.len() - i,
            {
                items.push(write_part(&parts[i]));
                i += 1;
            }
            proof {
                lemma_items_view(items);
                assert(items_view(items@) =~= parts.deep_view().map_values(
                    |p: ContentPartView| part_wire(p),
                ));
            }
            Outbound::Array(items)
        },
        Content::Null => Outbound::Null,
    }
}

/// The wire form of a reasoning block.
pub open spec fn detail_wire(d: ReasoningDetailView) -> OutboundView {
    match d {
        ReasoningDetailView::Text { text, signature, id, format, index } => OutboundView::Object(
            seq![("type"@, OutboundView::Text("reasoning.text"@)), ("text"@, OutboundView::Text(text))]
                + optional_text("signature"@, signature) + optional_text("id"@, id)
                + optional_text("format"@, format) + seq![
                ("index"@, OutboundView::Unsigned(index as u64)),
            ],
        ),
        ReasoningDetailView::Summary { summary, id, format, index } => OutboundView::Object(
            seq![
                ("type"@, OutboundView::Text("reasoning.summary"@)),
                ("summary"@, OutboundView::Text(summary)),
            ] + optional_text("id"@, id) + optional_text("format"@, format) + seq![
                ("index"@, OutboundView::Unsigned(index as u64)),
            ],
        ),
        ReasoningDetailView::Encrypted { data, id, format, index } => OutboundView::Object(
            seq![
                ("type"@, OutboundView::Text("reasoning.encrypted"@)),
                ("data"@, OutboundView::Text(data)),
            ] + optional_text("id"@, id) + optional_text("format"@, format) + seq![
                ("index"@, OutboundView::Unsigned(index as u64)),
            ],
        ),
    }
}

fn write_detail(d: &ReasoningDetail) -> (o: Outbound)
    ensures
        o@ == detail_wire(d.deep_view()),
{
    let mut b = ObjectBuilder::new();
    match d {
        ReasoningDetail::Text { text, signature, id, format, index } => {
            b.put_text("type", "reasoning.text");
            b.put_text("text", text.as_str());
            b.put_optional("signature", signature);
            b.put_optional("id", id);
            b.put_optional("format", format);
            b.put("index", Outbound::Unsigned(*index as u64));
        },
        ReasoningDetail::Summary { summary, id, format, index } => {
            b.put_text("type", "reasoning.summary");
            b.put_text("summary", summary.as_str());
            b.put_optional("id", id);
            b.put_optional("format", format);
            b.put("index", Outbound::Unsigned(*index as u64));
        },
        ReasoningDetail::Encrypted { data, id, format, index } => {
            b.put_text("type", "reasoning.encrypted");
            b.put_text("data", data.as_str());
            b.put_optional("id", id);
            b.put_optional("format", format);
            b.put("index", Outbound::Unsigned(*index as u64));
        },
    }
    assert(b@ =~= detail_wire(d.deep_view())->Object_0);
    b.finish()
}

/// The wire form of a function call.
pub open spec fn function_wire(f: FunctionCallView) -> OutboundView {
    OutboundView::Object(
        seq![("name"@, OutboundView::Text(f.name)), ("arguments"@, OutboundView::Raw(f.arguments))]
            + optional_text("raw_arguments"@, f.raw_arguments),
    )
}

/// The wire form of a tool call.
pub open spec fn call_wire(c: ToolCallView) -> OutboundView {
    OutboundView::Object(
        optional_text("id"@, c.id) + seq![("function"@, function_wire(c.function))],
    )
}

fn write_call(c: &ToolCall) -> (o: Outbound)
    ensures
        o@ == call_wire(c.deep_view()),
{
    let mut f = ObjectBuilder::new();
    f.put_text("name", c.function.name.as_str());
    f.put("arguments", Outbound::Raw(c.function.arguments.clone()));
    f.put_optional("raw_arguments", &c.function.raw_arguments);
    assert(f@ =~= function_wire(c.function.deep_view())->Object_0);
    let function = f.finish();
    let mut b = ObjectBuilder::new();
    b.put_optional("id", &c.id);
    b.put("function", function);
    assert(b@ =~= call_wire(c.deep_view())->Object_0);
    b.finish()
}

/// The wire form of a message: what is absent is left out, except that absent content is `null`.
pub open spec fn message_wire(m: MessageView) -> OutboundView {
    OutboundView::Object(
        seq![
            ("role"@, OutboundView::Text(role_spelling(m.role))),
            ("content"@, content_wire(m.content)),
        ] + optional_text("reasoning"@, m.reasoning) + (match m.reasoning_details {
            Some(d) => seq![
                (
                    "reasoning_details"@,
                    OutboundView::Array(d.map_values(|x: ReasoningDetailView| detail_wire(x))),
                ),
            ],
            None => Seq::empty(),
        }) + (match m.tool_calls {
            Some(c) => seq![
                (
                    "tool_calls"@,
                    OutboundView::Array(c.map_values(|x: ToolCallView| call_wire(x))),
                ),
            ],
            None => Seq::empty(),
        }) + optional_text("tool_call_id"@, m.tool_call_id) + optional_text("name"@, m.name),
    )
}

/// The wire form of a message.
pub fn write_message(m: &Message) -> (o: Outbound)
    ensures
        o@ == message_wire(m.deep_view()),
{
    let mut b = ObjectBuilder::new();
    b.put_text("role", role_word(m.role));
    b.put("content", write_content(&m.content));
    b.put_optional("reasoning", &m.reasoning);
    match &m.reasoning_details {
        Some(details) => {
            let mut items: Vec<Outbound> = Vec::new();
            let mut i: usize = 0;
            while i < details.len()
                invariant
                    i <= details@.len(),
                    items@.len() == i,
                    forall|k: int|
                        0 <= k < i ==> outbound_view(#[trigger] items@[k]) == detail_wire(
                            details@[k].deep_view(),
                        ),
                decreases details@.len() - i,
            {
                items.push(write_detail(&details[i]));
                i += 1;
            }
            proof {
                lemma_items_view(items);
                assert(items_view(items@) =~= details.deep_view().map_values(
                    |x: ReasoningDetailView| detail_wire(x),
                ));
            }
            b.put("reasoning_details", Outbound::Array(items));
        },
        None => {},
    }
    match &m.tool_calls {
        Some(calls) => {
            let mut items: Vec<Outbound> = Vec::new();
            let mut i: usize = 0;
            while i < calls.len()
                invariant
                    i <= calls@.len(),
                    items@.len() == i,
                    forall|k: int|
                        0 <= k < i ==> outbound_view(#[trigger] items@[k]) == call_wire(
                            calls@[k].deep_view(),
                        ),
                decreases calls@.len() - i,
            {
                items.push(write_call(&calls[i]));
                i += 1;
            }
            proof {
                lemma_items_view(items);
                assert(items_view(items@) =~= calls.deep_view().map_values(
                    |x: ToolCallView| call_wire(x),
                ));
            }
            b.put("tool_calls", Outbound::Array(items));
        },
        None => {},
    }
    b.put_optional("tool_call_id", &m.tool_call_id);
    b.put_optional("name", &m.name);
    assert(b@ =~= message_wire(m.deep_view())->Object_0);
    b.finish()
}

/// A message goes out with everything it holds: who speaks and what is said, and of the rest each member
/// exactly where there is something to tell, every block and every call in its order.
pub proof fn a_message_goes_out_whole(m: MessageView)
    ensures
        ({
            let members = message_wire(m)->Object_0;
            &&& message_wire(m) is Object
            &&& members[0] == ("role"@, OutboundView::Text(role_spelling(m.role)))
            &&& members[1].0 == "content"@
            &&& match m.content {
                ContentView::Text(t) => members[1].1 == OutboundView::Text(t),
                ContentView::Null => members[1].1 == OutboundView::Null,
                ContentView::Parts(parts) => members[1].1 is Array && members[1].1->Array_0.len()
                    == parts.len() && forall|i: int|
                    0 <= i < parts.len() ==> #[trigger] members[1].1->Array_0[i] == part_wire(parts[i]),
            }
            &&& m.reasoning is Some ==> members.contains(
                ("reasoning"@, OutboundView::Text(m.reasoning->0)),
            )
            &&& m.reasoning_details is Some ==> exists|items: Seq<OutboundView>|
                #[trigger] members.contains(("reasoning_details"@, OutboundView::Array(items)))
                    && items.len() == m.reasoning_details->0.len() && forall|i: int|
                    0 <= i < items.len() ==> #[trigger] items[i] == detail_wire(
                        m.reasoning_details->0[i],
                    )
            &&& m.tool_calls is Some ==> exists|items: Seq<OutboundView>|
                #[trigger] members.contains(("tool_calls"@, OutboundView::Array(items))) && items.len()
                    == m.tool_calls->0.len() && forall|i: int|
                    0 <= i < items.len() ==> #[trigger] items[i] == call_wire(m.tool_calls->0[i])
            &&& m.tool_call_id is Some ==> members.contains(
                ("tool_call_id"@, OutboundView::Text(m.tool_call_id->0)),
            )
            &&& m.name is Some ==> members.contains(("name"@, OutboundView::Text(m.name->0)))
            &&& members.len() == 2 + (if m.reasoning is Some {
                1nat
            } else {
                0
            }) + (if m.reasoning_details is Some {
                1nat
            } else {
                0
            }) + (if m.tool_calls is Some {
                1nat
            } else {
                0
            }) + (if m.tool_call_id is Some {
                1nat
            } else {
                0
            }) + (if m.name is Some {
                1nat
            } else {
                0
            })
        }),
{
    let m0 = seq![
        ("role"@, OutboundView::Text(role_spelling(m.role))),
        ("content"@, content_wire(m.content)),
    ];
    let o1 = optional_text("reasoning"@, m.reasoning);
    let blocks = match m.reasoning_details {
        Some(d) => d.map_values(|x: ReasoningDetailView| detail_wire(x)),
        None => Seq::empty(),
    };
    let o2 = match m.reasoning_details {
        Some(d) => seq![("reasoning_details"@, OutboundView::Array(blocks))],
        None => Seq::empty(),
    };
    let calls = match m.tool_calls {
        Some(c) => c.map_values(|x: ToolCallView| call_wire(x)),
        None => Seq::empty(),
    };
    let o3 = match m.tool_calls {
        Some(c) => seq![("tool_calls"@, OutboundView::Array(calls))],
        None => Seq::empty(),
    };
    let o4 = optional_text("tool_call_id"@, m.tool_call_id);
    let o5 = optional_text("name"@, m.name);
    let m1 = lemma_joined(m0, o1);
    let m2 = lemma_joined(m1, o2);
    let m3 = lemma_joined(m2, o3);
    let m4 = lemma_joined(m3, o4);
    let m5 = lemma_joined(m4, o5);
    assert(message_wire(m)->Object_0 == m5);
    if m.reasoning is Some {
        assert(o1[0] == ("reasoning"@, OutboundView::Text(m.reasoning->0)));
        assert(o1.contains(o1[0]));
    }
    if m.reasoning_details is Some {
        assert(o2[0] == ("reasoning_details"@, OutboundView::Array(blocks)));
        assert(o2.contains(o2[0]));
        assert(m5.contains(("reasoning_details"@, OutboundView::Array(blocks))));
    }
    if m.tool_calls is Some {
        assert(o3[0] == ("tool_calls"@, OutboundView::Array(calls)));
        assert(o3.contains(o3[0]));
        assert(m5.contains(("tool_calls"@, OutboundView::Array(calls))));
    }
    if m.tool_call_id is Some {
        assert(o4[0] == ("tool_call_id"@, OutboundView::Text(m.tool_call_id->0)));
        assert(o4.contains(o4[0]));
    }
    if m.name is Some {
        assert(o5[0] == ("name"@, OutboundView::Text(m.name->0)));
        assert(o5.contains(o5[0]));
    }
}

proof fn lemma_joined(
    a: Seq<(Seq<char>, OutboundView)>,
    b: Seq<(Seq<char>, OutboundView)>,
) -> (r: Seq<(Seq<char>, OutboundView)>)
    ensures
        r == a + b,
        r.len() == a.len() + b.len(),
        forall|x: (Seq<char>, OutboundView)| #[trigger] a.contains(x) ==> r.contains(x),
        forall|x: (Seq<char>, OutboundView)| #[trigger] b.contains(x) ==> r.contains(x),
        forall|i: int| 0 <= i < a.len() ==> #[trigger] r[i] == a[i],
{
    let r = a + b;
    assert forall|x: (Seq<char>, OutboundView)| #[trigger] a.contains(x) implies r.contains(x) by {
        let i = choose|i: int| 0 <= i < a.len() && a[i] == x;
        assert(r[i] == x);
    }
    assert forall|x: (Seq<char>, OutboundView)| #[trigger] b.contains(x) implies r.contains(x) by {
        let i = choose|i: int| 0 <= i < b.len() && b[i] == x;
        assert(r[a.len() + i] == x);
    }
    r
}

/// A call goes out with its identifier where it has one, its tool, its arguments as they are, and the text
/// they came as where they came as text.
pub proof fn a_call_goes_out_whole(c: ToolCallView)
    ensures
        ({
            let members = call_wire(c)->Object_0;
            let f = members.last().1->Object_0;
            &&& call_wire(c) is Object && members.last().0 == "function"@ && members.last().1 is Object
            &&& c.id is Some ==> members.len() == 2 && members[0] == (
                "id"@,
                OutboundView::Text(c.id->0),
            )
            &&& c.id is None ==> members.len() == 1
            &&& f[0] == ("name"@, OutboundView::Text(c.function.name))
            &&& f[1] == ("arguments"@, OutboundView::Raw(c.function.arguments))
            &&& c.function.raw_arguments is Some ==> f.len() == 3 && f[2] == (
                "raw_arguments"@,
                OutboundView::Text(c.function.raw_arguments->0),
            )
            &&& c.function.raw_arguments is None ==> f.len() == 2
        }),
{
}

/// A reasoning block goes out with its type, its words and its index, and with whatever else is told of
/// it.
pub proof fn a_block_goes_out_whole(d: ReasoningDetailView)
    ensures
        ({
            let members = detail_wire(d)->Object_0;
            &&& detail_wire(d) is Object
            &&& match d {
                ReasoningDetailView::Text { text, signature, id, format, index } => members[0] == (
                    "type"@,
                    OutboundView::Text("reasoning.text"@),
                ) && members[1] == ("text"@, OutboundView::Text(text)) && members.last() == (
                    "index"@,
                    OutboundView::Unsigned(index as u64),
                ) && (signature is Some ==> members.contains(
                    ("signature"@, OutboundView::Text(signature->0)),
                )) && (id is Some ==> members.contains(("id"@, OutboundView::Text(id->0)))) && (format
                    is Some ==> members.contains(("format"@, OutboundView::Text(format->0)))),
                ReasoningDetailView::Summary { summary, id, format, index } => members[0] == (
                    "type"@,
                    OutboundView::Text("reasoning.summary"@),
                ) && members[1] == ("summary"@, OutboundView::Text(summary)) && members.last() == (
                    "index"@,
                    OutboundView::Unsigned(index as u64),
                ) && (id is Some ==> members.contains(("id"@, OutboundView::Text(id->0)))) && (format
                    is Some ==> members.contains(("format"@, OutboundView::Text(format->0)))),
                ReasoningDetailView::Encrypted { data, id, format, index } => members[0] == (
                    "type"@,
                    OutboundView::Text("reasoning.encrypted"@),
                ) && members[1] == ("data"@, OutboundView::Text(data)) && members.last() == (
                    "index"@,
                    OutboundView::Unsigned(index as u64),
                ) && (id is Some ==> members.contains(("id"@, OutboundView::Text(id->0)))) && (format
                    is Some ==> members.contains(("format"@, OutboundView::Text(format->0)))),
            }
        }),
{
    let (kind, words) = match d {
        ReasoningDetailView::Text { text, .. } => (
            "reasoning.text"@,
            ("text"@, OutboundView::Text(text)),
        ),
        ReasoningDetailView::Summary { summary, .. } => (
            "reasoning.summary"@,
            ("summary"@, OutboundView::Text(summary)),
        ),
        ReasoningDetailView::Encrypted { data, .. } => (
            "reasoning.encrypted"@,
            ("data"@, OutboundView::Text(data)),
        ),
    };
    let (signature, id, format, index) = match d {
        ReasoningDetailView::Text { signature, id, format, index, .. } => (signature, id, format, index),
        ReasoningDetailView::Summary { id, format, index, .. } => (None, id, format, index),
        ReasoningDetailView::Encrypted { id, format, index, .. } => (None, id, format, index),
    };
    let m0 = seq![("type"@, OutboundView::Text(kind)), words];
    let o1 = optional_text("signature"@, signature);
    let o2 = optional_text("id"@, id);
    let o3 = optional_text("format"@, format);
    let o4 = seq![("index"@, OutboundView::Unsigned(index as u64))];
    let m1 = lemma_joined(m0, o1);
    let m2 = lemma_joined(m1, o2);
    let m3 = lemma_joined(m2, o3);
    let m4 = lemma_joined(m3, o4);
    assert(detail_wire(d)->Object_0 =~= m4);
    if signature is Some {
        assert(o1[0] == ("signature"@, OutboundView::Text(signature->0)));
        assert(o1.contains(o1[0]));
    }
    if id is Some {
        assert(o2[0] == ("id"@, OutboundView::Text(id->0)));
        assert(o2.contains(o2[0]));
    }
    if format is Some {
        assert(o3[0] == ("format"@, OutboundView::Text(format->0)));
        assert(o3.contains(o3[0]));
    }
}

} // verus!
