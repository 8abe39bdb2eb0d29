//! The arguments of the calls that legacy token contracts take.

use crate::event_types::{
    copy_optional, lemma_object_view, new_optional_member, new_text_member, optional_member,
    text_member, Record,
};
use crate::json::{lemma_find_member_at, Json, JsonValue, Member};
use crate::text::{lemma_u128_text_reads_back, nat_text, parse_u128, parsed_u128, u128_text};
use vstd::prelude::*;

verus! {

/// The arguments of `new`: who owns the supply, and how large it is.
#[derive(Debug, Clone, PartialEq, Eq)]
pub struct FtNew {
    pub owner_id: String,
    pub total_supply: u128,
}

pub struct FtNewView {
    pub owner_id: Seq<char>,
    pub total_supply: u128,
}

impl DeepView for FtNew {
    type V = FtNewView;

    open spec fn deep_view(&self) -> FtNewView {
        FtNewView {
            owner_id: self.owner_id@,
            total_supply: self.total_supply,
        }
    }
}

impl Record for FtNew {
    open spec fn decoded(j: JsonValue) -> Option<FtNewView> {
        match (
            j.text_member("owner_id"@),
            j.text_member("total_supply"@),
        ) {
            (Some(owner_id), Some(total_supply)) => match parsed_u128(total_supply) {
                Some(total_supply) => Some(FtNewView { owner_id, total_supply }),
                None => None,
            },
            _ => None,
        }
    }

    open spec fn encoded(v: FtNewView) -> JsonValue {
        JsonValue::Object(
            seq![
                text_member("owner_id"@, v.owner_id),
                text_member("total_supply"@, nat_text(v.total_supply as nat)),
            ],
        )
    }

    fn decode(j: &Json) -> (out: Option<Self>) {
        let owner_id = match j.text_member("owner_id") {
            Some(t) => t.clone(),
            None => return None,
        };
        let total_supply = match j.text_member("total_supply") {
            Some(t) => match parse_u128(t.as_str()) {
                Some(n) => n,
                None => return None,
            },
            None => return None,
        };
        Some(FtNew { owner_id, total_supply })
    }

    fn encode(&self) -> (out: Json) {
        let mut members: Vec<Member> = Vec::new();
        members.push(new_text_member("owner_id", &self.owner_id));
        members.push(new_text_member("total_supply", &u128_text(self.total_supply)));
        proof {
            lemma_object_view(members, Self::encoded(self.deep_view())->Object_0);
        }
        Json::Object(members)
    }

    proof fn round_trip(v: FtNewView) {
        reveal_strlit("owner_id");
        reveal_strlit("total_supply");
        assert("owner_id"@.len() == 8 && "total_supply"@.len() == 12);
        let members = Self::encoded(v)->Object_0;
        lemma_find_member_at(members, "owner_id"@, 0);
        lemma_find_member_at(members, "total_supply"@, 1);
        lemma_u128_text_reads_back(v.total_supply);
    }
}

/// The arguments of `ft_transfer` and `ft_transfer_call`.
#[derive(Debug, Clone, PartialEq, Eq)]
pub struct FtTransfer {
    pub receiver_id: String,
    pub amount: u128,
    pub memo: Option<String>,
}

pub struct FtTransferView {
    pub receiver_id: Seq<char>,
    pub amount: u128,
    pub memo: Option<Seq<char>>,
}

impl DeepView for FtTransfer {
    type V = FtTransferView;

    open spec fn deep_view(&self) -> FtTransferView {
        FtTransferView {
            receiver_id: self.receiver_id@,
            amount: self.amount,
            memo: self.memo.deep_view(),
        }
    }
}

impl Record for FtTransfer {
    open spec fn decoded(j: JsonValue) -> Option<FtTransferView> {
        match (
            j.text_member("receiver_id"@),
            j.text_member("amount"@),
            j.optional_text_member("memo"@),
        ) {
            (Some(receiver_id), Some(amount), Some(memo)) => match parsed_u128(amount) {
                Some(amount) => Some(FtTransferView { receiver_id, amount, memo }),
                None => None,
            },
            _ => None,
        }
    }

    open spec fn encoded(v: FtTransferView) -> JsonValue {
        JsonValue::Object(
            seq![
                text_member("receiver_id"@, v.receiver_id),
                text_member("amount"@, nat_text(v.amount as nat)),
                optional_member("memo"@, v.memo),
            ],
        )
    }

    fn decode(j: &Json) -> (out: Option<Self>) {
        let receiver_id = match j.text_member("receiver_id") {
            Some(t) => t.clone(),
            None => return None,
        };
        let amount = match j.text_member("amount") {
            Some(t) => match parse_u128(t.as_str()) {
                Some(n) => n,
                None => return None,
            },
            None => return None,
        };
        let memo = match j.optional_text_member("memo") {
            Some(m) => copy_optional(m),
            None => return None,
        };
        Some(FtTransfer { receiver_id, amount, memo })
    }

    fn encode(&self) -> (out: Json) {
        let mut members: Vec<Member> = Vec::new();
        members.push(new_text_member("receiver_id", &self.receiver_id));
        members.push(new_text_member("amount", &u128_text(self.amount)));
        members.push(new_optional_member("memo", &self.memo));
        proof {
            lemma_object_view(members, Self::encoded(self.deep_view())->Object_0);
        }
        Json::Object(members)
    }

    proof fn round_trip(v: FtTransferView) {
        reveal_strlit("receiver_id");
        reveal_strlit("amount");
        reveal_strlit("memo");
        assert("receiver_id"@.len() == 11 && "amount"@.len() == 6 && "memo"@.len() == 4);
        let members = Self::encoded(v)->Object_0;
        lemma_find_member_at(members, "receiver_id"@, 0);
        lemma_find_member_at(members, "amount"@, 1);
        lemma_find_member_at(members, "memo"@, 2);
        lemma_u128_text_reads_back(v.amount);
    }
}

/// The arguments of `ft_resolve_transfer`.
#[derive(Debug, Clone, PartialEq, Eq)]
pub struct FtRefund {
    pub receiver_id: String,
    pub sender_id: String,
    pub amount: u128,
    pub memo: Option<String>,
}

pub struct FtRefundView {
    pub receiver_id: Seq<char>,
    pub sender_id: Seq<char>,
    pub amount: u128,
    pub memo: Option<Seq<char>>,
}

impl DeepView for FtRefund {
    type V = FtRefundView;

    open spec fn deep_view(&self) -> FtRefundView {
        FtRefundView {
            receiver_id: self.receiver_id@,
            sender_id: self.sender_id@,
            amount: self.amount,
            memo: self.memo.deep_view(),
        }
    }
}

impl Record for FtRefund {
    open spec fn decoded(j: JsonValue) -> Option<FtRefundView> {
        match (
            j.text_member("receiver_id"@),
            j.text_member("sender_id"@),
            j.text_member("amount"@),
            j.optional_text_member("memo"@),
        ) {
            (Some(receiver_id), Some(sender_id), Some(amount), Some(memo)) => match parsed_u128(amount) {
                Some(amount) => Some(FtRefundView { receiver_id, sender_id, amount, memo }),
                None => None,
            },
            _ => None,
        }
    }

    open spec fn encoded(v: FtRefundView) -> JsonValue {
        JsonValue::Object(
            seq![
                text_member("receiver_id"@, v.receiver_id),
                text_member("sender_id"@, v.sender_id),
                text_member("amount"@, nat_text(v.amount as nat)),
                optional_member("memo"@, v.memo),
            ],
        )
    }

    fn decode(j: &Json) -> (out: Option<Self>) {
        let receiver_id = match j.text_member("receiver_id") {
            Some(t) => t.clone(),
            None => return None,
        };
        let sender_id = match j.text_member("sender_id") {
            Some(t) => t.clone(),
            None => return None,
        };
        let amount = match j.text_member("amount") {
            Some(t) => match parse_u128(t.as_str()) {
                Some(n) => n,
                None => return None,
            },
            None => return None,
        };
        let memo = match j.optional_text_member("memo") {
            Some(m) => copy_optional(m),
            None => return None,
        };
        Some(FtRefund { receiver_id, sender_id, amount, memo })
    }

    fn encode(&self) -> (out: Json) {
        let mut members: Vec<Member> = Vec::new();
        members.push(new_text_member("receiver_id", &self.receiver_id));
        members.push(new_text_member("sender_id", &self.sender_id));
        members.push(new_text_member("amount", &u128_text(self.amount)));
        members.push(new_optional_member("memo", &self.memo));
        proof {
            lemma_object_view(members, Self::encoded(self.deep_view())->Object_0);
        }
        Json::Object(members)
    }

    proof fn round_trip(v: FtRefundView) {
        reveal_strlit("receiver_id");
        reveal_strlit("sender_id");
        reveal_strlit("amount");
        reveal_strlit("memo");
        assert("receiver_id"@.len() == 11);
        assert("sender_id"@.len() == 9);
        assert("amount"@.len() == 6);
        assert("memo"@.len() == 4);
        let members = Self::encoded(v)->Object_0;
        lemma_find_member_at(members, "receiver_id"@, 0);
        lemma_find_member_at(members, "sender_id"@, 1);
        lemma_find_member_at(members, "amount"@, 2);
        lemma_find_member_at(members, "memo"@, 3);
        lemma_u128_text_reads_back(v.amount);
    }
}

/// The arguments of `near_withdraw`.
#[derive(Debug, Clone, PartialEq, Eq)]
pub struct NearWithdraw {
    pub amount: u128,
}

pub struct NearWithdrawView {
    pub amount: u128,
}

impl DeepView for NearWithdraw {
    type V = NearWithdrawView;

    open spec fn deep_view(&self) -> NearWithdrawView {
        NearWithdrawView {
            amount: self.amount,
        }
    }
}

impl Record for NearWithdraw {
    open spec fn decoded(j: JsonValue) -> Option<NearWithdrawView> {
        match j.text_member("amount"@) {
            Some(amount) => match parsed_u128(amount) {
                Some(amount) => Some(NearWithdrawView { amount }),
                None => None,
            },
            None => None,
        }
    }

    open spec fn encoded(v: NearWithdrawView) -> JsonValue {
        JsonValue::Object(
            seq![
                text_member("amount"@, nat_text(v.amount as nat)),
            ],
        )
    }

    fn decode(j: &Json) -> (out: Option<Self>) {
        let amount = match j.text_member("amount") {
            Some(t) => match parse_u128(t.as_str()) {
                Some(n) => n,
                None => return None,
            },
            None => return None,
        };
        Some(NearWithdraw { amount })
    }

    fn encode(&self) -> (out: Json) {
        let mut members: Vec<Member> = Vec::new();
        members.push(new_text_member("amount", &u128_text(self.amount)));
        proof {
            lemma_object_view(members, Self::encoded(self.deep_view())->Object_0);
        }
        Json::Object(members)
    }

    proof fn round_trip(v: NearWithdrawView) {
        reveal_strlit("amount");
        assert("amount"@.len() == 6);
        let members = Self::encoded(v)->Object_0;
        lemma_find_member_at(members, "amount"@, 0);
        lemma_u128_text_reads_back(v.amount);
    }
}


} // verus!
