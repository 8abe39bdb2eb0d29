//! The event kinds that contracts report in their logs, and how each is
//! written as a JSON document.

use crate::json::{lemma_find_member_at, Json, JsonValue, Member, MemberValue};
use crate::text::{
    lemma_u128_text_reads_back, nat_text, parse_u128, parsed_u128, same_text, u128_text,
};
use vstd::prelude::*;

verus! {

/// A kind of record that has a JSON form.
pub trait Record: Sized + DeepView {
    /// The record that a document writes, if it writes one.
    spec fn decoded(j: JsonValue) -> Option<<Self as DeepView>::V>;

    /// The document that writes a record.
    spec fn encoded(v: <Self as DeepView>::V) -> JsonValue;

    /// Reads a record from a document.
    fn decode(j: &Json) -> (out: Option<Self>)
        ensures
            out.deep_view() == Self::decoded(j@),
    ;

    /// Writes a record as a document.
    fn encode(&self) -> (out: Json)
        ensures
            out@ == Self::encoded(self.deep_view()),
    ;

    /// Reading what was written gives the record back.
    proof fn round_trip(v: <Self as DeepView>::V)
        ensures
            Self::decoded(Self::encoded(v)) == Some(v),
    ;
}

/// The records that the documents `items` write, if every one writes a record.
pub open spec fn decode_each<T: Record>(items: Seq<JsonValue>) -> Option<Seq<<T as DeepView>::V>> {
    if forall|i: int| 0 <= i < items.len() ==> (#[trigger] T::decoded(items[i])) is Some {
        Some(Seq::new(items.len(), |i: int| T::decoded(items[i])->0))
    } else {
        None
    }
}

/// The documents that write the records `records`.
pub open spec fn encode_each<T: Record>(records: Seq<<T as DeepView>::V>) -> Seq<JsonValue> {
    Seq::new(records.len(), |i: int| T::encoded(records[i]))
}

/// Reads a list of records; one bad record spoils the list.
pub fn decode_records<T: Record>(items: &Vec<Json>) -> (out: Option<Vec<T>>)
    ensures
        out.deep_view() == decode_each::<T>(items.deep_view()),
{
    let mut out: Vec<T> = Vec::new();
    let mut i: usize = 0;
    while i < items.len()
        invariant
            i <= items.len(),
            out.len() == i,
            forall|k: int|
                0 <= k < i ==> (#[trigger] T::decoded(items.deep_view()[k])) == Some(
                    out.deep_view()[k],
                ),
        decreases items.len() - i,
    {
        match T::decode(&items[i]) {
            Some(r) => {
                assert(items.deep_view()[i as int] == items[i as int]@);
                let ghost before = out.deep_view();
                out.push(r);
                assert forall|k: int| 0 <= k < i + 1 implies (#[trigger] T::decoded(
                    items.deep_view()[k],
                )) == Some(out.deep_view()[k]) by {
                    if k < i {
                        assert(out.deep_view()[k] == before[k]);
                    }
                }
            },
            None => {
                assert(items.deep_view()[i as int] == items[i as int]@);
                return None;
            },
        }
        i = i + 1;
    }
    assert(out.deep_view() =~= decode_each::<T>(items.deep_view())->0);
    Some(out)
}


/// Writes a list of records.
pub fn encode_records<T: Record>(records: &Vec<T>) -> (out: Vec<Json>)
    ensures
        out.deep_view() == encode_each::<T>(records.deep_view()),
{
    let mut out: Vec<Json> = Vec::new();
    let mut i: usize = 0;
    while i < records.len()
        invariant
            i <= records.len(),
            out.len() == i,
            forall|k: int|
                0 <= k < i ==> (#[trigger] out.deep_view()[k]) == T::encoded(
                    records.deep_view()[k],
                ),
        decreases records.len() - i,
    {
        let j = records[i].encode();
        let ghost before = out.deep_view();
        out.push(j);
        assert forall|k: int| 0 <= k < i + 1 implies (#[trigger] out.deep_view()[k])
            == T::encoded(records.deep_view()[k]) by {
            if k < i {
                assert(out.deep_view()[k] == before[k]);
            }
        }
        i = i + 1;
    }
    assert(out.deep_view() =~= encode_each::<T>(records.deep_view()));
    out
}

/// Reading the documents written for a list of records gives the list back.
pub proof fn lemma_records_round_trip<T: Record>(records: Seq<<T as DeepView>::V>)
    ensures
        decode_each::<T>(encode_each::<T>(records)) == Some(records),
{
    let items = encode_each::<T>(records);
    assert forall|i: int| 0 <= i < items.len() implies (#[trigger] T::decoded(items[i])) == Some(
        records[i],
    ) by {
        T::round_trip(records[i]);
    }
    assert(decode_each::<T>(items)->0 =~= records);
}

/// A member that holds a text.
pub open spec fn text_member(name: Seq<char>, text: Seq<char>) -> MemberValue {
    MemberValue { name, value: JsonValue::Text(text) }
}

/// A member that holds a text or, for none, `null`.
pub open spec fn optional_member(name: Seq<char>, text: Option<Seq<char>>) -> MemberValue {
    MemberValue {
        name,
        value: match text {
            Some(t) => JsonValue::Text(t),
            None => JsonValue::Null,
        },
    }
}

pub(crate) fn new_text_member(name: &str, text: &String) -> (out: Member)
    ensures
        out.name@ == name@,
        out.value@ == JsonValue::Text(text@),
{
    Member { name: name.to_owned(), value: Json::Text(text.clone()) }
}

pub(crate) fn new_optional_member(name: &str, text: &Option<String>) -> (out: Member)
    ensures
        out.name@ == name@,
        out.value@ == optional_member(name@, text.deep_view()).value,
{
    let value = match text {
        Some(t) => Json::Text(t.clone()),
        None => Json::Null,
    };
    Member { name: name.to_owned(), value }
}

pub(crate) fn copy_optional(text: Option<&String>) -> (out: Option<String>)
    ensures
        out.deep_view() == text.deep_view(),
{
    match text {
        Some(t) => Some(t.clone()),
        None => None,
    }
}

/// The view of an object built from `members`.
pub(crate) proof fn lemma_object_view(members: Vec<Member>, model: Seq<MemberValue>)
    requires
        members.len() == model.len(),
        forall|i: int|
            0 <= i < model.len() ==> (#[trigger] model[i]) == (MemberValue {
                name: members[i].name@,
                value: members[i].value@,
            }),
    ensures
        Json::Object(members)@ == JsonValue::Object(model),
{
    assert(Json::Object(members)@->Object_0 =~= model);
}

impl Record for String {
    open spec fn decoded(j: JsonValue) -> Option<Seq<char>> {
        j.text()
    }

    open spec fn encoded(v: Seq<char>) -> JsonValue {
        JsonValue::Text(v)
    }

    fn decode(j: &Json) -> (out: Option<Self>) {
        copy_optional(j.text())
    }

    fn encode(&self) -> (out: Json) {
        Json::Text(self.clone())
    }

    proof fn round_trip(v: Seq<char>) {
    }
}

/// The texts listed under the member `name`.
pub open spec fn text_list_member(j: JsonValue, name: Seq<char>) -> Option<Seq<Seq<char>>> {
    match j.member(name) {
        Some(v) => match v.items() {
            Some(items) => decode_each::<String>(items),
            None => None,
        },
        None => None,
    }
}

/// A member that lists texts.
pub open spec fn text_list(name: Seq<char>, texts: Seq<Seq<char>>) -> MemberValue {
    MemberValue { name, value: JsonValue::List(encode_each::<String>(texts)) }
}

pub(crate) fn read_text_list(j: &Json, name: &str) -> (out: Option<Vec<String>>)
    ensures
        out.deep_view() == text_list_member(j@, name@),
{
    match j.member(name) {
        Some(v) => match v.items() {
            Some(items) => decode_records::<String>(items),
            None => None,
        },
        None => None,
    }
}

/// The view of a list built from `items`.
pub(crate) proof fn lemma_list_view(items: Vec<Json>)
    ensures
        Json::List(items)@ == JsonValue::List(items.deep_view()),
{
    assert(Json::List(items)@->List_0 =~= items.deep_view());
}

pub(crate) fn new_text_list(name: &str, texts: &Vec<String>) -> (out: Member)
    ensures
        out.name@ == name@,
        out.value@ == text_list(name@, texts.deep_view()).value,
{
    let items = encode_records::<String>(texts);
    proof {
        lemma_list_view(items);
    }
    Member { name: name.to_owned(), value: Json::List(items) }
}

/// Tokens minted to an owner.
#[derive(Debug, Clone, PartialEq, Eq)]
pub struct FtMintData {
    pub owner_id: String,
    pub amount: u128,
    pub memo: Option<String>,
}

pub struct FtMintDataView {
    pub owner_id: Seq<char>,
    pub amount: u128,
    pub memo: Option<Seq<char>>,
}

impl DeepView for FtMintData {
    type V = FtMintDataView;

    open spec fn deep_view(&self) -> FtMintDataView {
        FtMintDataView {
            owner_id: self.owner_id@,
            amount: self.amount,
            memo: self.memo.deep_view(),
        }
    }
}

impl Record for FtMintData {
    open spec fn decoded(j: JsonValue) -> Option<FtMintDataView> {
        match (
            j.text_member("owner_id"@),
            j.text_member("amount"@),
            j.optional_text_member("memo"@),
        ) {
            (Some(owner_id), Some(amount), Some(memo)) => match parsed_u128(amount) {
                Some(amount) => Some(FtMintDataView { owner_id, amount, memo }),
                None => None,
            },
            _ => None,
        }
    }

    open spec fn encoded(v: FtMintDataView) -> JsonValue {
        JsonValue::Object(
            seq![
                text_member("owner_id"@, v.owner_id),
                text_member("amount"@, nat_text(v.amount as nat)),
                optional_member("memo"@, v.memo),
            ],
        )
    }

    fn decode(j: &Json) -> (out: Option<Self>) {
        let owner_id = match j.text_member("owner_id") {
            Some(t) => t.clone(),
            None => return None,
        };
        let amount = match j.text_member("amount") {
            Some(t) => match parse_u128(t.as_str()) {
                Some(n) => n,
                None => return None,
            },
            None => return None,
        };
        let memo = match j.optional_text_member("memo") {
            Some(m) => copy_optional(m),
            None => return None,
        };
        Some(FtMintData { owner_id, amount, memo })
    }

    fn encode(&self) -> (out: Json) {
        let mut members: Vec<Member> = Vec::new();
        members.push(new_text_member("owner_id", &self.owner_id));
        members.push(new_text_member("amount", &u128_text(self.amount)));
        members.push(new_optional_member("memo", &self.memo));
        proof {
            lemma_object_view(members, Self::encoded(self.deep_view())->Object_0);
        }
        Json::Object(members)
    }

    proof fn round_trip(v: FtMintDataView) {
        reveal_strlit("owner_id");
        reveal_strlit("amount");
        reveal_strlit("memo");
        assert("owner_id"@.len() == 8 && "amount"@.len() == 6 && "memo"@.len() == 4);
        let members = Self::encoded(v)->Object_0;
        lemma_find_member_at(members, "owner_id"@, 0);
        lemma_find_member_at(members, "amount"@, 1);
        lemma_find_member_at(members, "memo"@, 2);
        lemma_u128_text_reads_back(v.amount);
    }
}

/// Tokens moved from one owner to another.
#[derive(Debug, Clone, PartialEq, Eq)]
pub struct FtTransferData {
    pub old_owner_id: String,
    pub new_owner_id: String,
    pub amount: u128,
    pub memo: Option<String>,
}

pub struct FtTransferDataView {
    pub old_owner_id: Seq<char>,
    pub new_owner_id: Seq<char>,
    pub amount: u128,
    pub memo: Option<Seq<char>>,
}

impl DeepView for FtTransferData {
    type V = FtTransferDataView;

    open spec fn deep_view(&self) -> FtTransferDataView {
        FtTransferDataView {
            old_owner_id: self.old_owner_id@,
            new_owner_id: self.new_owner_id@,
            amount: self.amount,
            memo: self.memo.deep_view(),
        }
    }
}

impl Record for FtTransferData {
    open spec fn decoded(j: JsonValue) -> Option<FtTransferDataView> {
        match (
            j.text_member("old_owner_id"@),
            j.text_member("new_owner_id"@),
            j.text_member("amount"@),
            j.optional_text_member("memo"@),
        ) {
            (Some(old_owner_id), Some(new_owner_id), Some(amount), Some(memo)) => match parsed_u128(amount) {
                Some(amount) => Some(FtTransferDataView { old_owner_id, new_owner_id, amount, memo }),
                None => None,
            },
            _ => None,
        }
    }

    open spec fn encoded(v: FtTransferDataView) -> JsonValue {
        JsonValue::Object(
            seq![
                text_member("old_owner_id"@, v.old_owner_id),
                text_member("new_owner_id"@, v.new_owner_id),
                text_member("amount"@, nat_text(v.amount as nat)),
                optional_member("memo"@, v.memo),
            ],
        )
    }

    fn decode(j: &Json) -> (out: Option<Self>) {
        let old_owner_id = match j.text_member("old_owner_id") {
            Some(t) => t.clone(),
            None => return None,
        };
        let new_owner_id = match j.text_member("new_owner_id") {
            Some(t) => t.clone(),
            None => return None,
        };
        let amount = match j.text_member("amount") {
            Some(t) => match parse_u128(t.as_str()) {
                Some(n) => n,
                None => return None,
            },
            None => return None,
        };
        let memo = match j.optional_text_member("memo") {
            Some(m) => copy_optional(m),
            None => return None,
        };
        Some(FtTransferData { old_owner_id, new_owner_id, amount, memo })
    }

    fn encode(&self) -> (out: Json) {
        let mut members: Vec<Member> = Vec::new();
        members.push(new_text_member("old_owner_id", &self.old_owner_id));
        members.push(new_text_member("new_owner_id", &self.new_owner_id));
        members.push(new_text_member("amount", &u128_text(self.amount)));
        members.push(new_optional_member("memo", &self.memo));
        proof {
            lemma_object_view(members, Self::encoded(self.deep_view())->Object_0);
        }
        Json::Object(members)
    }

    proof fn round_trip(v: FtTransferDataView) {
        reveal_strlit("old_owner_id");
        reveal_strlit("new_owner_id");
        reveal_strlit("amount");
        reveal_strlit("memo");
        assert("old_owner_id"@.len() == 12);
        assert("new_owner_id"@.len() == 12);
        assert("amount"@.len() == 6);
        assert("memo"@.len() == 4);
        assert("old_owner_id"@[0] != "new_owner_id"@[0]);
        let members = Self::encoded(v)->Object_0;
        lemma_find_member_at(members, "old_owner_id"@, 0);
        lemma_find_member_at(members, "new_owner_id"@, 1);
        lemma_find_member_at(members, "amount"@, 2);
        lemma_find_member_at(members, "memo"@, 3);
        lemma_u128_text_reads_back(v.amount);
    }
}

/// Tokens burnt from an owner.
#[derive(Debug, Clone, PartialEq, Eq)]
pub struct FtBurnData {
    pub owner_id: String,
    pub amount: u128,
    pub memo: Option<String>,
}

pub struct FtBurnDataView {
    pub owner_id: Seq<char>,
    pub amount: u128,
    pub memo: Option<Seq<char>>,
}

impl DeepView for FtBurnData {
    type V = FtBurnDataView;

    open spec fn deep_view(&self) -> FtBurnDataView {
        FtBurnDataView {
            owner_id: self.owner_id@,
            amount: self.amount,
            memo: self.memo.deep_view(),
        }
    }
}

impl Record for FtBurnData {
    open spec fn decoded(j: JsonValue) -> Option<FtBurnDataView> {
        match (
            j.text_member("owner_id"@),
            j.text_member("amount"@),
            j.optional_text_member("memo"@),
        ) {
            (Some(owner_id), Some(amount), Some(memo)) => match parsed_u128(amount) {
                Some(amount) => Some(FtBurnDataView { owner_id, amount, memo }),
                None => None,
            },
            _ => None,
        }
    }

    open spec fn encoded(v: FtBurnDataView) -> JsonValue {
        JsonValue::Object(
            seq![
                text_member("owner_id"@, v.owner_id),
                text_member("amount"@, nat_text(v.amount as nat)),
                optional_member("memo"@, v.memo),
            ],
        )
    }

    fn decode(j: &Json) -> (out: Option<Self>) {
        let owner_id = match j.text_member("owner_id") {
            Some(t) => t.clone(),
            None => return None,
        };
        let amount = match j.text_member("amount") {
            Some(t) => match parse_u128(t.as_str()) {
                Some(n) => n,
                None => return None,
            },
            None => return None,
        };
        let memo = match j.optional_text_member("memo") {
            Some(m) => copy_optional(m),
            None => return None,
        };
        Some(FtBurnData { owner_id, amount, memo })
    }

    fn encode(&self) -> (out: Json) {
        let mut members: Vec<Member> = Vec::new();
        members.push(new_text_member("owner_id", &self.owner_id));
        members.push(new_text_member("amount", &u128_text(self.amount)));
        members.push(new_optional_member("memo", &self.memo));
        proof {
            lemma_object_view(members, Self::encoded(self.deep_view())->Object_0);
        }
        Json::Object(members)
    }

    proof fn round_trip(v: FtBurnDataView) {
        reveal_strlit("owner_id");
        reveal_strlit("amount");
        reveal_strlit("memo");
        assert("owner_id"@.len() == 8 && "amount"@.len() == 6 && "memo"@.len() == 4);
        let members = Self::encoded(v)->Object_0;
        lemma_find_member_at(members, "owner_id"@, 0);
        lemma_find_member_at(members, "amount"@, 1);
        lemma_find_member_at(members, "memo"@, 2);
        lemma_u128_text_reads_back(v.amount);
    }
}

/// Non-fungible tokens minted to an owner.
#[derive(Debug, Clone, PartialEq, Eq)]
pub struct NftMintData {
    pub owner_id: String,
    pub token_ids: Vec<String>,
    pub memo: Option<String>,
}

pub struct NftMintDataView {
    pub owner_id: Seq<char>,
    pub token_ids: Seq<Seq<char>>,
    pub memo: Option<Seq<char>>,
}

impl DeepView for NftMintData {
    type V = NftMintDataView;

    open spec fn deep_view(&self) -> NftMintDataView {
        NftMintDataView {
            owner_id: self.owner_id@,
            token_ids: self.token_ids.deep_view(),
            memo: self.memo.deep_view(),
        }
    }
}

impl Record for NftMintData {
    open spec fn decoded(j: JsonValue) -> Option<NftMintDataView> {
        match (
            j.text_member("owner_id"@),
            text_list_member(j, "token_ids"@),
            j.optional_text_member("memo"@),
        ) {
            (Some(owner_id), Some(token_ids), Some(memo)) => Some(
                NftMintDataView { owner_id, token_ids, memo },
            ),
            _ => None,
        }
    }

    open spec fn encoded(v: NftMintDataView) -> JsonValue {
        JsonValue::Object(
            seq![
                text_member("owner_id"@, v.owner_id),
                text_list("token_ids"@, v.token_ids),
                optional_member("memo"@, v.memo),
            ],
        )
    }

    fn decode(j: &Json) -> (out: Option<Self>) {
        let owner_id = match j.text_member("owner_id") {
            Some(t) => t.clone(),
            None => return None,
        };
        let token_ids = match read_text_list(j, "token_ids") {
            Some(list) => list,
            None => return None,
        };
        let memo = match j.optional_text_member("memo") {
            Some(m) => copy_optional(m),
            None => return None,
        };
        Some(NftMintData { owner_id, token_ids, memo })
    }

    fn encode(&self) -> (out: Json) {
        let mut members: Vec<Member> = Vec::new();
        members.push(new_text_member("owner_id", &self.owner_id));
        members.push(new_text_list("token_ids", &self.token_ids));
        members.push(new_optional_member("memo", &self.memo));
        proof {
            lemma_object_view(members, Self::encoded(self.deep_view())->Object_0);
        }
        Json::Object(members)
    }

    proof fn round_trip(v: NftMintDataView) {
        reveal_strlit("owner_id");
        reveal_strlit("token_ids");
        reveal_strlit("memo");
        assert("owner_id"@.len() == 8 && "token_ids"@.len() == 9 && "memo"@.len() == 4);
        let members = Self::encoded(v)->Object_0;
        lemma_find_member_at(members, "owner_id"@, 0);
        lemma_find_member_at(members, "token_ids"@, 1);
        lemma_find_member_at(members, "memo"@, 2);
        lemma_records_round_trip::<String>(v.token_ids);
    }
}

/// Non-fungible tokens moved from one owner to another.
#[derive(Debug, Clone, PartialEq, Eq)]
pub struct NftTransferData {
    pub authorized_id: Option<String>,
    pub old_owner_id: String,
    pub new_owner_id: String,
    pub token_ids: Vec<String>,
    pub memo: Option<String>,
}

pub struct NftTransferDataView {
    pub authorized_id: Option<Seq<char>>,
    pub old_owner_id: Seq<char>,
    pub new_owner_id: Seq<char>,
    pub token_ids: Seq<Seq<char>>,
    pub memo: Option<Seq<char>>,
}

impl DeepView for NftTransferData {
    type V = NftTransferDataView;

    open spec fn deep_view(&self) -> NftTransferDataView {
        NftTransferDataView {
            authorized_id: self.authorized_id.deep_view(),
            old_owner_id: self.old_owner_id@,
            new_owner_id: self.new_owner_id@,
            token_ids: self.token_ids.deep_view(),
            memo: self.memo.deep_view(),
        }
    }
}

impl Record for NftTransferData {
    open spec fn decoded(j: JsonValue) -> Option<NftTransferDataView> {
        match (
            j.optional_text_member("authorized_id"@),
            j.text_member("old_owner_id"@),
            j.text_member("new_owner_id"@),
            text_list_member(j, "token_ids"@),
            j.optional_text_member("memo"@),
        ) {
            (
                Some(authorized_id),
                Some(old_owner_id),
                Some(new_owner_id),
                Some(token_ids),
                Some(memo),
            ) => Some(
                NftTransferDataView { authorized_id, old_owner_id, new_owner_id, token_ids, memo },
            ),
            _ => None,
        }
    }

    open spec fn encoded(v: NftTransferDataView) -> JsonValue {
        JsonValue::Object(
            seq![
                optional_member("authorized_id"@, v.authorized_id),
                text_member("old_owner_id"@, v.old_owner_id),
                text_member("new_owner_id"@, v.new_owner_id),
                text_list("token_ids"@, v.token_ids),
                optional_member("memo"@, v.memo),
            ],
        )
    }

    fn decode(j: &Json) -> (out: Option<Self>) {
        let authorized_id = match j.optional_text_member("authorized_id") {
            Some(m) => copy_optional(m),
            None => return None,
        };
        let old_owner_id = match j.text_member("old_owner_id") {
            Some(t) => t.clone(),
            None => return None,
        };
        let new_owner_id = match j.text_member("new_owner_id") {
            Some(t) => t.clone(),
            None => return None,
        };
        let token_ids = match read_text_list(j, "token_ids") {
            Some(list) => list,
            None => return None,
        };
        let memo = match j.optional_text_member("memo") {
            Some(m) => copy_optional(m),
            None => return None,
        };
        Some(NftTransferData { authorized_id, old_owner_id, new_owner_id, token_ids, memo })
    }

    fn encode(&self) -> (out: Json) {
        let mut members: Vec<Member> = Vec::new();
        members.push(new_optional_member("authorized_id", &self.authorized_id));
        members.push(new_text_member("old_owner_id", &self.old_owner_id));
        members.push(new_text_member("new_owner_id", &self.new_owner_id));
        members.push(new_text_list("token_ids", &self.token_ids));
        members.push(new_optional_member("memo", &self.memo));
        proof {
            lemma_object_view(members, Self::encoded(self.deep_view())->Object_0);
        }
        Json::Object(members)
    }

    proof fn round_trip(v: NftTransferDataView) {
        reveal_strlit("authorized_id");
        reveal_strlit("old_owner_id");
        reveal_strlit("new_owner_id");
        reveal_strlit("token_ids");
        reveal_strlit("memo");
        assert("authorized_id"@.len() == 13);
        assert("old_owner_id"@.len() == 12);
        assert("new_owner_id"@.len() == 12);
        assert("token_ids"@.len() == 9);
        assert("memo"@.len() == 4);
        assert("old_owner_id"@[0] != "new_owner_id"@[0]);
        let members = Self::encoded(v)->Object_0;
        lemma_find_member_at(members, "authorized_id"@, 0);
        lemma_find_member_at(members, "old_owner_id"@, 1);
        lemma_find_member_at(members, "new_owner_id"@, 2);
        lemma_find_member_at(members, "token_ids"@, 3);
        lemma_find_member_at(members, "memo"@, 4);
        lemma_records_round_trip::<String>(v.token_ids);
    }
}

/// Non-fungible tokens burnt from an owner.
#[derive(Debug, Clone, PartialEq, Eq)]
pub struct NftBurnData {
    pub owner_id: String,
    pub authorized_id: Option<String>,
    pub token_ids: Vec<String>,
    pub memo: Option<String>,
}

pub struct NftBurnDataView {
    pub owner_id: Seq<char>,
    pub authorized_id: Option<Seq<char>>,
    pub token_ids: Seq<Seq<char>>,
    pub memo: Option<Seq<char>>,
}

impl DeepView for NftBurnData {
    type V = NftBurnDataView;

    open spec fn deep_view(&self) -> NftBurnDataView {
        NftBurnDataView {
            owner_id: self.owner_id@,
            authorized_id: self.authorized_id.deep_view(),
            token_ids: self.token_ids.deep_view(),
            memo: self.memo.deep_view(),
        }
    }
}

impl Record for NftBurnData {
    open spec fn decoded(j: JsonValue) -> Option<NftBurnDataView> {
        match (
            j.text_member("owner_id"@),
            j.optional_text_member("authorized_id"@),
            text_list_member(j, "token_ids"@),
            j.optional_text_member("memo"@),
        ) {
            (Some(owner_id), Some(authorized_id), Some(token_ids), Some(memo)) => Some(
                NftBurnDataView { owner_id, authorized_id, token_ids, memo },
            ),
            _ => None,
        }
    }

    open spec fn encoded(v: NftBurnDataView) -> JsonValue {
        JsonValue::Object(
            seq![
                text_member("owner_id"@, v.owner_id),
                optional_member("authorized_id"@, v.authorized_id),
                text_list("token_ids"@, v.token_ids),
                optional_member("memo"@, v.memo),
            ],
        )
    }

    fn decode(j: &Json) -> (out: Option<Self>) {
        let owner_id = match j.text_member("owner_id") {
            Some(t) => t.clone(),
            None => return None,
        };
        let authorized_id = match j.optional_text_member("authorized_id") {
            Some(m) => copy_optional(m),
            None => return None,
        };
        let token_ids = match read_text_list(j, "token_ids") {
            Some(list) => list,
            None => return None,
        };
        let memo = match j.optional_text_member("memo") {
            Some(m) => copy_optional(m),
            None => return None,
        };
        Some(NftBurnData { owner_id, authorized_id, token_ids, memo })
    }

    fn encode(&self) -> (out: Json) {
        let mut members: Vec<Member> = Vec::new();
        members.push(new_text_member("owner_id", &self.owner_id));
        members.push(new_optional_member("authorized_id", &self.authorized_id));
        members.push(new_text_list("token_ids", &self.token_ids));
        members.push(new_optional_member("memo", &self.memo));
        proof {
            lemma_object_view(members, Self::encoded(self.deep_view())->Object_0);
        }
        Json::Object(members)
    }

    proof fn round_trip(v: NftBurnDataView) {
        reveal_strlit("owner_id");
        reveal_strlit("authorized_id");
        reveal_strlit("token_ids");
        reveal_strlit("memo");
        assert("owner_id"@.len() == 8);
        assert("authorized_id"@.len() == 13);
        assert("token_ids"@.len() == 9);
        assert("memo"@.len() == 4);
        let members = Self::encoded(v)->Object_0;
        lemma_find_member_at(members, "owner_id"@, 0);
        lemma_find_member_at(members, "authorized_id"@, 1);
        lemma_find_member_at(members, "token_ids"@, 2);
        lemma_find_member_at(members, "memo"@, 3);
        lemma_records_round_trip::<String>(v.token_ids);
    }
}



/// What a NEP-141 event reports: one list of records of one kind.
#[derive(Debug, Clone, PartialEq, Eq)]
pub enum Nep141EventKind {
    FtMint(Vec<FtMintData>),
    FtTransfer(Vec<FtTransferData>),
    FtBurn(Vec<FtBurnData>),
}

pub enum Nep141EventKindView {
    FtMint(Seq<FtMintDataView>),
    FtTransfer(Seq<FtTransferDataView>),
    FtBurn(Seq<FtBurnDataView>),
}

impl DeepView for Nep141EventKind {
    type V = Nep141EventKindView;

    open spec fn deep_view(&self) -> Nep141EventKindView {
        match self {
            Nep141EventKind::FtMint(v) => Nep141EventKindView::FtMint(v.deep_view()),
            Nep141EventKind::FtTransfer(v) => Nep141EventKindView::FtTransfer(v.deep_view()),
            Nep141EventKind::FtBurn(v) => Nep141EventKindView::FtBurn(v.deep_view()),
        }
    }
}

impl Nep141EventKindView {
    /// The name that the envelope gives this kind.
    pub open spec fn name(self) -> Seq<char> {
        match self {
            Nep141EventKindView::FtMint(_) => "ft_mint"@,
            Nep141EventKindView::FtTransfer(_) => "ft_transfer"@,
            Nep141EventKindView::FtBurn(_) => "ft_burn"@,
        }
    }

    /// The documents that write the records.
    pub open spec fn data(self) -> Seq<JsonValue> {
        match self {
            Nep141EventKindView::FtMint(v) => encode_each::<FtMintData>(v),
            Nep141EventKindView::FtTransfer(v) => encode_each::<FtTransferData>(v),
            Nep141EventKindView::FtBurn(v) => encode_each::<FtBurnData>(v),
        }
    }

    /// The kind called `name` with the records that `data` writes.
    pub open spec fn decoded(name: Seq<char>, data: Seq<JsonValue>) -> Option<Nep141EventKindView> {
        if name == "ft_mint"@ {
            match decode_each::<FtMintData>(data) {
                Some(v) => Some(Nep141EventKindView::FtMint(v)),
                None => None,
            }
        } else if name == "ft_transfer"@ {
            match decode_each::<FtTransferData>(data) {
                Some(v) => Some(Nep141EventKindView::FtTransfer(v)),
                None => None,
            }
        } else if name == "ft_burn"@ {
            match decode_each::<FtBurnData>(data) {
                Some(v) => Some(Nep141EventKindView::FtBurn(v)),
                None => None,
            }
        } else {
            None
        }
    }

    /// Reading the name and the documents of a kind gives the kind back.
    pub proof fn lemma_round_trip(self)
        ensures
            Self::decoded(self.name(), self.data()) == Some(self),
    {
        reveal_strlit("ft_mint");
        reveal_strlit("ft_transfer");
        reveal_strlit("ft_burn");
        assert("ft_mint"@.len() == 7 && "ft_transfer"@.len() == 11 && "ft_burn"@.len() == 7);
        assert("ft_mint"@[3] != "ft_burn"@[3]);
        match self {
            Nep141EventKindView::FtMint(v) => lemma_records_round_trip::<FtMintData>(v),
            Nep141EventKindView::FtTransfer(v) => lemma_records_round_trip::<FtTransferData>(v),
            Nep141EventKindView::FtBurn(v) => lemma_records_round_trip::<FtBurnData>(v),
        }
    }
}

impl Nep141EventKind {
    /// Reads the kind called `name` from the documents `data`.
    pub fn decode(name: &str, data: &Vec<Json>) -> (out: Option<Nep141EventKind>)
        ensures
            out.deep_view() == Nep141EventKindView::decoded(name@, data.deep_view()),
    {
        if same_text(name, "ft_mint") {
            match decode_records::<FtMintData>(data) {
                Some(v) => Some(Nep141EventKind::FtMint(v)),
                None => None,
            }
        } else if same_text(name, "ft_transfer") {
            match decode_records::<FtTransferData>(data) {
                Some(v) => Some(Nep141EventKind::FtTransfer(v)),
                None => None,
            }
        } else if same_text(name, "ft_burn") {
            match decode_records::<FtBurnData>(data) {
                Some(v) => Some(Nep141EventKind::FtBurn(v)),
                None => None,
            }
        } else {
            None
        }
    }

    /// The name that the envelope gives this kind.
    pub fn name(&self) -> (out: &'static str)
        ensures
            out@ == self.deep_view().name(),
    {
        match self {
            Nep141EventKind::FtMint(_) => "ft_mint",
            Nep141EventKind::FtTransfer(_) => "ft_transfer",
            Nep141EventKind::FtBurn(_) => "ft_burn",
        }
    }

    /// The documents that write the records.
    pub fn data(&self) -> (out: Vec<Json>)
        ensures
            out.deep_view() == self.deep_view().data(),
    {
        match self {
            Nep141EventKind::FtMint(v) => encode_records::<FtMintData>(v),
            Nep141EventKind::FtTransfer(v) => encode_records::<FtTransferData>(v),
            Nep141EventKind::FtBurn(v) => encode_records::<FtBurnData>(v),
        }
    }
}

/// A fungible-token event.
#[derive(Debug, Clone, PartialEq, Eq)]
pub struct Nep141Event {
    pub version: String,
    pub event_kind: Nep141EventKind,
}

pub struct Nep141EventView {
    pub version: Seq<char>,
    pub event_kind: Nep141EventKindView,
}

impl DeepView for Nep141Event {
    type V = Nep141EventView;

    open spec fn deep_view(&self) -> Nep141EventView {
        Nep141EventView { version: self.version@, event_kind: self.event_kind.deep_view() }
    }
}

/// What a NEP-171 event reports: one list of records of one kind.
#[derive(Debug, Clone, PartialEq, Eq)]
pub enum Nep171EventKind {
    NftMint(Vec<NftMintData>),
    NftTransfer(Vec<NftTransferData>),
    NftBurn(Vec<NftBurnData>),
}

pub enum Nep171EventKindView {
    NftMint(Seq<NftMintDataView>),
    NftTransfer(Seq<NftTransferDataView>),
    NftBurn(Seq<NftBurnDataView>),
}

impl DeepView for Nep171EventKind {
    type V = Nep171EventKindView;

    open spec fn deep_view(&self) -> Nep171EventKindView {
        match self {
            Nep171EventKind::NftMint(v) => Nep171EventKindView::NftMint(v.deep_view()),
            Nep171EventKind::NftTransfer(v) => Nep171EventKindView::NftTransfer(v.deep_view()),
            Nep171EventKind::NftBurn(v) => Nep171EventKindView::NftBurn(v.deep_view()),
        }
    }
}

impl Nep171EventKindView {
    /// The name that the envelope gives this kind.
    pub open spec fn name(self) -> Seq<char> {
        match self {
            Nep171EventKindView::NftMint(_) => "nft_mint"@,
            Nep171EventKindView::NftTransfer(_) => "nft_transfer"@,
            Nep171EventKindView::NftBurn(_) => "nft_burn"@,
        }
    }

    /// The documents that write the records.
    pub open spec fn data(self) -> Seq<JsonValue> {
        match self {
            Nep171EventKindView::NftMint(v) => encode_each::<NftMintData>(v),
            Nep171EventKindView::NftTransfer(v) => encode_each::<NftTransferData>(v),
            Nep171EventKindView::NftBurn(v) => encode_each::<NftBurnData>(v),
        }
    }

    /// The kind called `name` with the records that `data` writes.
    pub open spec fn decoded(name: Seq<char>, data: Seq<JsonValue>) -> Option<Nep171EventKindView> {
        if name == "nft_mint"@ {
            match decode_each::<NftMintData>(data) {
                Some(v) => Some(Nep171EventKindView::NftMint(v)),
                None => None,
            }
        } else if name == "nft_transfer"@ {
            match decode_each::<NftTransferData>(data) {
                Some(v) => Some(Nep171EventKindView::NftTransfer(v)),
                None => None,
            }
        } else if name == "nft_burn"@ {
            match decode_each::<NftBurnData>(data) {
                Some(v) => Some(Nep171EventKindView::NftBurn(v)),
                None => None,
            }
        } else {
            None
        }
    }

    /// Reading the name and the documents of a kind gives the kind back.
    pub proof fn lemma_round_trip(self)
        ensures
            Self::decoded(self.name(), self.data()) == Some(self),
    {
        reveal_strlit("nft_mint");
        reveal_strlit("nft_transfer");
        reveal_strlit("nft_burn");
        assert("nft_mint"@.len() == 8 && "nft_transfer"@.len() == 12 && "nft_burn"@.len() == 8);
        assert("nft_mint"@[4] != "nft_burn"@[4]);
        match self {
            Nep171EventKindView::NftMint(v) => lemma_records_round_trip::<NftMintData>(v),
            Nep171EventKindView::NftTransfer(v) => lemma_records_round_trip::<NftTransferData>(v),
            Nep171EventKindView::NftBurn(v) => lemma_records_round_trip::<NftBurnData>(v),
        }
    }
}

impl Nep171EventKind {
    /// Reads the kind called `name` from the documents `data`.
    pub fn decode(name: &str, data: &Vec<Json>) -> (out: Option<Nep171EventKind>)
        ensures
            out.deep_view() == Nep171EventKindView::decoded(name@, data.deep_view()),
    {
        if same_text(name, "nft_mint") {
            match decode_records::<NftMintData>(data) {
                Some(v) => Some(Nep171EventKind::NftMint(v)),
                None => None,
            }
        } else if same_text(name, "nft_transfer") {
            match decode_records::<NftTransferData>(data) {
                Some(v) => Some(Nep171EventKind::NftTransfer(v)),
                None => None,
            }
        } else if same_text(name, "nft_burn") {
            match decode_records::<NftBurnData>(data) {
                Some(v) => Some(Nep171EventKind::NftBurn(v)),
                None => None,
            }
        } else {
            None
        }
    }

    /// The name that the envelope gives this kind.
    pub fn name(&self) -> (out: &'static str)
        ensures
            out@ == self.deep_view().name(),
    {
        match self {
            Nep171EventKind::NftMint(_) => "nft_mint",
            Nep171EventKind::NftTransfer(_) => "nft_transfer",
            Nep171EventKind::NftBurn(_) => "nft_burn",
        }
    }

    /// The documents that write the records.
    pub fn data(&self) -> (out: Vec<Json>)
        ensures
            out.deep_view() == self.deep_view().data(),
    {
        match self {
            Nep171EventKind::NftMint(v) => encode_records::<NftMintData>(v),
            Nep171EventKind::NftTransfer(v) => encode_records::<NftTransferData>(v),
            Nep171EventKind::NftBurn(v) => encode_records::<NftBurnData>(v),
        }
    }
}

/// A non-fungible-token event.
#[derive(Debug, Clone, PartialEq, Eq)]
pub struct Nep171Event {
    pub version: String,
    pub event_kind: Nep171EventKind,
}

pub struct Nep171EventView {
    pub version: Seq<char>,
    pub event_kind: Nep171EventKindView,
}

impl DeepView for Nep171Event {
    type V = Nep171EventView;

    open spec fn deep_view(&self) -> Nep171EventView {
        Nep171EventView { version: self.version@, event_kind: self.event_kind.deep_view() }
    }
}

/// An event that a contract reported in a log line.
#[derive(Debug, Clone, PartialEq, Eq)]
pub enum NearEvent {
    Nep141(Nep141Event),
    Nep171(Nep171Event),
}

pub enum NearEventView {
    Nep141(Nep141EventView),
    Nep171(Nep171EventView),
}

impl DeepView for NearEvent {
    type V = NearEventView;

    open spec fn deep_view(&self) -> NearEventView {
        match self {
            NearEvent::Nep141(e) => NearEventView::Nep141(e.deep_view()),
            NearEvent::Nep171(e) => NearEventView::Nep171(e.deep_view()),
        }
    }
}

/// The documents listed under the member `name`.
pub open spec fn list_member(j: JsonValue, name: Seq<char>) -> Option<Seq<JsonValue>> {
    match j.member(name) {
        Some(v) => v.items(),
        None => None,
    }
}

/// The envelope of an event: its standard, version, kind and records.
pub open spec fn envelope(
    standard: Seq<char>,
    version: Seq<char>,
    event: Seq<char>,
    data: Seq<JsonValue>,
) -> JsonValue {
    JsonValue::Object(
        seq![
            text_member("standard"@, standard),
            text_member("version"@, version),
            text_member("event"@, event),
            MemberValue { name: "data"@, value: JsonValue::List(data) },
        ],
    )
}

/// What reading the four members of an envelope gives.
proof fn lemma_envelope_members(
    standard: Seq<char>,
    version: Seq<char>,
    event: Seq<char>,
    data: Seq<JsonValue>,
)
    ensures
        envelope(standard, version, event, data).text_member("standard"@) == Some(standard),
        envelope(standard, version, event, data).text_member("version"@) == Some(version),
        envelope(standard, version, event, data).text_member("event"@) == Some(event),
        list_member(envelope(standard, version, event, data), "data"@) == Some(data),
{
    reveal_strlit("standard");
    reveal_strlit("version");
    reveal_strlit("event");
    reveal_strlit("data");
    assert("standard"@.len() == 8 && "version"@.len() == 7 && "event"@.len() == 5 && "data"@.len()
        == 4);
    let members = envelope(standard, version, event, data)->Object_0;
    lemma_find_member_at(members, "standard"@, 0);
    lemma_find_member_at(members, "version"@, 1);
    lemma_find_member_at(members, "event"@, 2);
    lemma_find_member_at(members, "data"@, 3);
}

fn new_envelope(standard: &str, version: &String, event: &str, data: Vec<Json>) -> (out: Json)
    ensures
        out@ == envelope(standard@, version@, event@, data.deep_view()),
{
    let ghost model = envelope(standard@, version@, event@, data.deep_view());
    let mut members: Vec<Member> = Vec::new();
    members.push(Member { name: "standard".to_owned(), value: Json::Text(standard.to_owned()) });
    members.push(new_text_member("version", version));
    members.push(Member { name: "event".to_owned(), value: Json::Text(event.to_owned()) });
    proof {
        lemma_list_view(data);
    }
    members.push(Member { name: "data".to_owned(), value: Json::List(data) });
    proof {
        lemma_object_view(members, model->Object_0);
    }
    Json::Object(members)
}

impl Record for NearEvent {
    open spec fn decoded(j: JsonValue) -> Option<NearEventView> {
        match (
            j.text_member("standard"@),
            j.text_member("version"@),
            j.text_member("event"@),
            list_member(j, "data"@),
        ) {
            (Some(standard), Some(version), Some(event), Some(data)) => {
                if standard == "nep141"@ {
                    match Nep141EventKindView::decoded(event, data) {
                        Some(event_kind) => Some(
                            NearEventView::Nep141(Nep141EventView { version, event_kind }),
                        ),
                        None => None,
                    }
                } else if standard == "nep171"@ {
                    match Nep171EventKindView::decoded(event, data) {
                        Some(event_kind) => Some(
                            NearEventView::Nep171(Nep171EventView { version, event_kind }),
                        ),
                        None => None,
                    }
                } else {
                    None
                }
            },
            _ => None,
        }
    }

    open spec fn encoded(v: NearEventView) -> JsonValue {
        match v {
            NearEventView::Nep141(e) => envelope(
                "nep141"@,
                e.version,
                e.event_kind.name(),
                e.event_kind.data(),
            ),
            NearEventView::Nep171(e) => envelope(
                "nep171"@,
                e.version,
                e.event_kind.name(),
                e.event_kind.data(),
            ),
        }
    }

    fn decode(j: &Json) -> (out: Option<Self>) {
        let standard = match j.text_member("standard") {
            Some(t) => t,
            None => return None,
        };
        let version = match j.text_member("version") {
            Some(t) => t.clone(),
            None => return None,
        };
        let event = match j.text_member("event") {
            Some(t) => t,
            None => return None,
        };
        let data = match j.member("data") {
            Some(v) => match v.items() {
                Some(items) => items,
                None => return None,
            },
            None => return None,
        };
        if same_text(standard.as_str(), "nep141") {
            match Nep141EventKind::decode(event.as_str(), data) {
                Some(event_kind) => Some(NearEvent::Nep141(Nep141Event { version, event_kind })),
                None => None,
            }
        } else if same_text(standard.as_str(), "nep171") {
            match Nep171EventKind::decode(event.as_str(), data) {
                Some(event_kind) => Some(NearEvent::Nep171(Nep171Event { version, event_kind })),
                None => None,
            }
        } else {
            None
        }
    }

    fn encode(&self) -> (out: Json) {
        match self {
            NearEvent::Nep141(e) => new_envelope(
                "nep141",
                &e.version,
                e.event_kind.name(),
                e.event_kind.data(),
            ),
            NearEvent::Nep171(e) => new_envelope(
                "nep171",
                &e.version,
                e.event_kind.name(),
                e.event_kind.data(),
            ),
        }
    }

    proof fn round_trip(v: NearEventView) {
        reveal_strlit("nep141");
        reveal_strlit("nep171");
        assert("nep141"@[4] != "nep171"@[4]);
        match v {
            NearEventView::Nep141(e) => {
                lemma_envelope_members(
                    "nep141"@,
                    e.version,
                    e.event_kind.name(),
                    e.event_kind.data(),
                );
                e.event_kind.lemma_round_trip();
            },
            NearEventView::Nep171(e) => {
                lemma_envelope_members(
                    "nep171"@,
                    e.version,
                    e.event_kind.name(),
                    e.event_kind.data(),
                );
                e.event_kind.lemma_round_trip();
            },
        }
    }
}

} // verus!
