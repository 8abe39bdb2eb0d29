//! JSON documents as trees of plain values.

use crate::text::same_text;
use vstd::prelude::*;

verus! {

/// A JSON document.
pub enum JsonValue {
    Null,
    Bool(bool),
    /// A number, kept as the text that writes it.
    Number(Seq<char>),
    Text(Seq<char>),
    List(Seq<JsonValue>),
    /// The members of an object, each a name and a document.
    Object(Seq<MemberValue>),
}

/// One member of an object.
pub struct MemberValue {
    pub name: Seq<char>,
    pub value: JsonValue,
}

/// A JSON document held in memory; its view is the document.
#[derive(Debug, PartialEq, Eq)]
pub enum Json {
    Null,
    Bool(bool),
    Number(String),
    Text(String),
    List(Vec<Json>),
    Object(Vec<Member>),
}

/// One member of an object held in memory.
#[derive(Debug, PartialEq, Eq)]
pub struct Member {
    pub name: String,
    pub value: Json,
}

impl View for Json {
    type V = JsonValue;

    open spec fn view(&self) -> JsonValue
        decreases self,
    {
        match self {
            Json::Null => JsonValue::Null,
            Json::Bool(b) => JsonValue::Bool(*b),
            Json::Number(n) => JsonValue::Number(n@),
            Json::Text(t) => JsonValue::Text(t@),
            Json::List(items) => JsonValue::List(
                Seq::new(
                    items.len() as nat,
                    |i: int|
                        if 0 <= i < items.len() {
                            items[i]@
                        } else {
                            JsonValue::Null
                        },
                ),
            ),
            Json::Object(members) => JsonValue::Object(
                Seq::new(
                    members.len() as nat,
                    |i: int|
                        if 0 <= i < members.len() {
                            MemberValue { name: members[i].name@, value: members[i].value@ }
                        } else {
                            MemberValue { name: Seq::empty(), value: JsonValue::Null }
                        },
                ),
            ),
        }
    }
}


#[verifier::external_type_specification]
#[verifier::external_body]
pub struct ExJsonTree(serde_json::Value);

/// The document that the bytes write, if they write one.
pub uninterp spec fn json_parsed(bytes: Seq<u8>) -> Option<JsonValue>;

/// Copies a `serde_json::Value` into a `Json`, variant by variant; a number
/// is kept as the text that `serde_json::Number` prints for it.
#[verifier::external_body]
fn json_from_value(value: serde_json::Value) -> Json {
    match value {
        serde_json::Value::Null => Json::Null,
        serde_json::Value::Bool(b) => Json::Bool(b),
        serde_json::Value::Number(n) => Json::Number(n.to_string()),
        serde_json::Value::String(s) => Json::Text(s),
        serde_json::Value::Array(items) => Json::List(
            items.into_iter().map(json_from_value).collect(),
        ),
        serde_json::Value::Object(members) => Json::Object(
            members.into_iter().map(|(name, v)| Member { name, value: json_from_value(v) }).collect(),
        ),
    }
}

/// `serde_json::from_slice` into a `serde_json::Value`: reads one JSON
/// document from the bytes. The contract names the document and says that
/// the bytes write none exactly when nothing is returned.
#[verifier::external_body]
fn json_from_slice(bytes: &[u8]) -> (out: Option<Json>)
    ensures
        out.deep_view() == json_parsed(bytes@),
{
    match serde_json::from_slice::<serde_json::Value>(bytes) {
        Ok(value) => Some(json_from_value(value)),
        Err(_) => None,
    }
}

impl DeepView for Json {
    type V = JsonValue;

    open spec fn deep_view(&self) -> JsonValue {
        self@
    }
}

/// The document under the first member called `name`.
pub open spec fn find_member(members: Seq<MemberValue>, name: Seq<char>) -> Option<JsonValue>
    decreases members.len(),
{
    if members.len() == 0 {
        None
    } else if members[0].name == name {
        Some(members[0].value)
    } else {
        find_member(members.drop_first(), name)
    }
}

/// The first member called `name` is the one found.
pub proof fn lemma_find_member_at(members: Seq<MemberValue>, name: Seq<char>, k: int)
    requires
        0 <= k < members.len(),
        members[k].name == name,
        forall|j: int| 0 <= j < k ==> (#[trigger] members[j]).name != name,
    ensures
        find_member(members, name) == Some(members[k].value),
    decreases k,
{
    if k > 0 {
        let rest = members.drop_first();
        assert forall|j: int| 0 <= j < k - 1 implies (#[trigger] rest[j]).name != name by {
            assert(rest[j] == members[j + 1]);
        }
        assert(members[0].name != name);
        lemma_find_member_at(rest, name, k - 1);
    }
}

/// Where no member is called `name`, none is found.
pub proof fn lemma_find_member_none(members: Seq<MemberValue>, name: Seq<char>)
    requires
        forall|j: int| 0 <= j < members.len() ==> (#[trigger] members[j]).name != name,
    ensures
        find_member(members, name) is None,
    decreases members.len(),
{
    if members.len() > 0 {
        let rest = members.drop_first();
        assert forall|j: int| 0 <= j < rest.len() implies (#[trigger] rest[j]).name != name by {
            assert(rest[j] == members[j + 1]);
        }
        assert(members[0].name != name);
        lemma_find_member_none(rest, name);
    }
}

impl JsonValue {
    /// The member `name` of an object; nothing for other documents.
    pub open spec fn member(self, name: Seq<char>) -> Option<JsonValue> {
        match self {
            JsonValue::Object(members) => find_member(members, name),
            _ => None,
        }
    }

    /// The text of a string document.
    pub open spec fn text(self) -> Option<Seq<char>> {
        match self {
            JsonValue::Text(t) => Some(t),
            _ => None,
        }
    }

    /// The items of an array document.
    pub open spec fn items(self) -> Option<Seq<JsonValue>> {
        match self {
            JsonValue::List(items) => Some(items),
            _ => None,
        }
    }

    /// The text of the member `name`, where it is there and is a string.
    pub open spec fn text_member(self, name: Seq<char>) -> Option<Seq<char>> {
        match self.member(name) {
            Some(v) => v.text(),
            None => None,
        }
    }

    /// An optional string member: absent or `null` reads as no text, a string
    /// as that text. The outer `None` says that the member is of another kind.
    pub open spec fn optional_text_member(self, name: Seq<char>) -> Option<Option<Seq<char>>> {
        match self.member(name) {
            None => Some(None),
            Some(JsonValue::Null) => Some(None),
            Some(JsonValue::Text(t)) => Some(Some(t)),
            Some(_) => None,
        }
    }
}

impl Json {
    /// Reads one JSON document from `bytes`.
    pub fn parse(bytes: &[u8]) -> (out: Option<Json>)
        ensures
            out.deep_view() == json_parsed(bytes@),
    {
        json_from_slice(bytes)
    }

    /// The member `name` of an object.
    pub fn member(&self, name: &str) -> (out: Option<&Json>)
        ensures
            out.deep_view() == self@.member(name@),
    {
        match self {
            Json::Object(members) => {
                let ghost all = self@->Object_0;
                proof {
                    assert(all.len() == members.len());
                    assert(all.skip(0) =~= all);
                }
                let mut i: usize = 0;
                while i < members.len()
                    invariant
                        i <= members.len(),
                        self@ == JsonValue::Object(all),
                        all.len() == members.len(),
                        forall|j: int|
                            0 <= j < members.len() ==> #[trigger] all[j] == (MemberValue {
                                name: members[j].name@,
                                value: members[j].value@,
                            }),
                        find_member(all, name@) == find_member(all.skip(i as int), name@),
                    decreases members.len() - i,
                {
                    proof {
                        assert(all.skip(i as int).drop_first() =~= all.skip(i as int + 1));
                        assert(all.skip(i as int)[0] == all[i as int]);
                    }
                    if same_text(members[i].name.as_str(), name) {
                        return Some(&members[i].value);
                    }
                    i = i + 1;
                }
                assert(all.skip(i as int).len() == 0);
                None
            },
            _ => None,
        }
    }

    /// The text of a string document.
    pub fn text(&self) -> (out: Option<&String>)
        ensures
            out.deep_view() == self@.text(),
    {
        match self {
            Json::Text(t) => Some(t),
            _ => None,
        }
    }

    /// The items of an array document.
    pub fn items(&self) -> (out: Option<&Vec<Json>>)
        ensures
            out is Some == self@.items() is Some,
            out matches Some(v) ==> self@.items() == Some(v.deep_view()),
    {
        match self {
            Json::List(items) => {
                assert(items.deep_view() =~= self@->List_0);
                Some(items)
            },
            _ => None,
        }
    }

    /// The text of the member `name`, where it is there and is a string.
    pub fn text_member(&self, name: &str) -> (out: Option<&String>)
        ensures
            out.deep_view() == self@.text_member(name@),
    {
        match self.member(name) {
            Some(v) => v.text(),
            None => None,
        }
    }

    /// An optional string member; see the model.
    pub fn optional_text_member(&self, name: &str) -> (out: Option<Option<&String>>)
        ensures
            out.deep_view() == self@.optional_text_member(name@),
    {
        match self.member(name) {
            None => Some(None),
            Some(Json::Null) => Some(None),
            Some(Json::Text(t)) => Some(Some(t)),
            Some(_) => None,
        }
    }
}


} // verus!
