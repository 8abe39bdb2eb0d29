//! Balance changes of fungible tokens, as derived from one block.

use crate::amount::Amount;
use crate::outcome::{BlockHeader, BlockHeaderView, RawOutcome, RawOutcomeView};
use crate::text::{chars_of, string_from_chars};
use vstd::prelude::*;

verus! {

/// Why a balance changed.
#[derive(Debug, Clone, Copy, PartialEq, Eq, Structural)]
pub enum Cause {
    Mint,
    Burn,
    Transfer,
}

impl Cause {
    /// The word that storage keeps for the cause.
    pub open spec fn name(self) -> Seq<char> {
        match self {
            Cause::Mint => "MINT"@,
            Cause::Burn => "BURN"@,
            Cause::Transfer => "TRANSFER"@,
        }
    }

    /// The word that storage keeps for the cause.
    pub fn as_str(&self) -> (out: &'static str)
        ensures
            out@ == self.name(),
    {
        match self {
            Cause::Mint => "MINT",
            Cause::Burn => "BURN",
            Cause::Transfer => "TRANSFER",
        }
    }
}

impl DeepView for Amount {
    type V = int;

    open spec fn deep_view(&self) -> int {
        self@
    }
}

/// One token balance: an account within a token contract.
#[derive(Debug, Clone, Hash, PartialEq, Eq)]
pub struct AccountWithContract {
    pub account_id: String,
    pub contract_account_id: String,
}

pub struct AccountWithContractView {
    pub account_id: Seq<char>,
    pub contract_account_id: Seq<char>,
}

impl DeepView for AccountWithContract {
    type V = AccountWithContractView;

    open spec fn deep_view(&self) -> AccountWithContractView {
        AccountWithContractView {
            account_id: self.account_id@,
            contract_account_id: self.contract_account_id@,
        }
    }
}

impl View for AccountWithContract {
    type V = AccountWithContractView;

    open spec fn view(&self) -> AccountWithContractView {
        self.deep_view()
    }
}

impl AccountWithContract {
    /// A copy of the key.
    pub fn duplicate(&self) -> (out: AccountWithContract)
        ensures
            out@ == self@,
    {
        AccountWithContract {
            account_id: self.account_id.clone(),
            contract_account_id: self.contract_account_id.clone(),
        }
    }
}

/// A provisional balance change: one account of one contract gains or loses
/// `delta` tokens.
#[derive(Debug, Clone, PartialEq, Eq)]
pub struct CandidateEvent {
    pub contract_id: String,
    pub affected_id: String,
    /// The counterparty, where there is one.
    pub involved_id: Option<String>,
    pub delta: Amount,
    pub cause: Cause,
    pub memo: Option<String>,
    pub block_height: u64,
    pub block_timestamp: u64,
    pub shard_id: u64,
    /// The balance of the affected account after this change; unset until the
    /// block is reconciled.
    pub absolute_amount: Option<Amount>,
    /// The place of the event within its shard and block; unset until the
    /// events are enumerated.
    pub event_index: Option<usize>,
}

pub struct CandidateEventView {
    pub contract_id: Seq<char>,
    pub affected_id: Seq<char>,
    pub involved_id: Option<Seq<char>>,
    pub delta: int,
    pub cause: Cause,
    pub memo: Option<Seq<char>>,
    pub block_height: u64,
    pub block_timestamp: u64,
    pub shard_id: u64,
    pub absolute_amount: Option<int>,
    pub event_index: Option<usize>,
}

impl DeepView for CandidateEvent {
    type V = CandidateEventView;

    open spec fn deep_view(&self) -> CandidateEventView {
        CandidateEventView {
            contract_id: self.contract_id@,
            affected_id: self.affected_id@,
            involved_id: self.involved_id.deep_view(),
            delta: self.delta@,
            cause: self.cause,
            memo: self.memo.deep_view(),
            block_height: self.block_height,
            block_timestamp: self.block_timestamp,
            shard_id: self.shard_id,
            absolute_amount: self.absolute_amount.deep_view(),
            event_index: self.event_index,
        }
    }
}

impl View for CandidateEvent {
    type V = CandidateEventView;

    open spec fn view(&self) -> CandidateEventView {
        self.deep_view()
    }
}

impl CandidateEventView {
    /// The balance that the event changes.
    pub open spec fn key(self) -> AccountWithContractView {
        AccountWithContractView {
            account_id: self.affected_id,
            contract_account_id: self.contract_id,
        }
    }
}

/// Where and when an event took place.
#[derive(Debug, Clone, PartialEq, Eq)]
pub struct EventContext {
    pub contract_id: String,
    pub block_height: u64,
    pub block_timestamp: u64,
    pub shard_id: u64,
}

pub struct EventContextView {
    pub contract_id: Seq<char>,
    pub block_height: u64,
    pub block_timestamp: u64,
    pub shard_id: u64,
}

impl DeepView for EventContext {
    type V = EventContextView;

    open spec fn deep_view(&self) -> EventContextView {
        EventContextView {
            contract_id: self.contract_id@,
            block_height: self.block_height,
            block_timestamp: self.block_timestamp,
            shard_id: self.shard_id,
        }
    }
}

impl View for EventContext {
    type V = EventContextView;

    open spec fn view(&self) -> EventContextView {
        self.deep_view()
    }
}

/// Where and when the events of an outcome take place.
pub open spec fn context_of(
    outcome: RawOutcomeView,
    header: BlockHeaderView,
    shard_id: u64,
) -> EventContextView {
    EventContextView {
        contract_id: outcome.executor_id,
        block_height: header.height,
        block_timestamp: header.timestamp,
        shard_id,
    }
}

/// Where and when the events of an outcome take place.
pub fn event_context(outcome: &RawOutcome, header: &BlockHeader, shard_id: u64) -> (out:
    EventContext)
    ensures
        out@ == context_of(outcome@, header@, shard_id),
{
    EventContext {
        contract_id: outcome.executor_id.clone(),
        block_height: header.height,
        block_timestamp: header.timestamp,
        shard_id,
    }
}

/// The event by which `affected` gains `delta` tokens, not yet reconciled
/// and not yet enumerated.
pub open spec fn candidate(
    context: EventContextView,
    affected: Seq<char>,
    involved: Option<Seq<char>>,
    delta: int,
    cause: Cause,
    memo: Option<Seq<char>>,
) -> CandidateEventView {
    CandidateEventView {
        contract_id: context.contract_id,
        affected_id: affected,
        involved_id: involved,
        delta,
        cause,
        memo,
        block_height: context.block_height,
        block_timestamp: context.block_timestamp,
        shard_id: context.shard_id,
        absolute_amount: None,
        event_index: None,
    }
}

/// Builds the event by which `affected` gains `delta` tokens.
pub fn build_event(
    context: &EventContext,
    affected: &String,
    involved: Option<&String>,
    delta: Amount,
    cause: Cause,
    memo: &Option<String>,
) -> (out: CandidateEvent)
    ensures
        out@ == candidate(
            context@,
            affected@,
            involved.deep_view(),
            delta@,
            cause,
            memo.deep_view(),
        ),
{
    let involved_id = match involved {
        Some(t) => Some(t.clone()),
        None => None,
    };
    CandidateEvent {
        contract_id: context.contract_id.clone(),
        affected_id: affected.clone(),
        involved_id,
        delta,
        cause,
        memo: copy_text(memo),
        block_height: context.block_height,
        block_timestamp: context.block_timestamp,
        shard_id: context.shard_id,
        absolute_amount: None,
        event_index: None,
    }
}

/// The two events of a transfer of `amount` tokens: the sender loses them,
/// then the receiver gains them, under one memo.
pub open spec fn transfer_pair(
    context: EventContextView,
    sender: Seq<char>,
    receiver: Seq<char>,
    amount: int,
    memo: Option<Seq<char>>,
) -> Seq<CandidateEventView> {
    seq![
        candidate(context, sender, Some(receiver), -amount, Cause::Transfer, memo),
        candidate(context, receiver, Some(sender), amount, Cause::Transfer, memo),
    ]
}

/// Builds the two events of a transfer.
pub(crate) fn build_transfer_pair(
    context: &EventContext,
    sender: &String,
    receiver: &String,
    amount: Amount,
    memo: &Option<String>,
) -> (out: Vec<CandidateEvent>)
    ensures
        out.deep_view() == transfer_pair(
            context@,
            sender@,
            receiver@,
            amount@,
            memo.deep_view(),
        ),
{
    let debit = build_event(
        context,
        sender,
        Some(receiver),
        amount.negated(),
        Cause::Transfer,
        memo,
    );
    let credit = build_event(context, receiver, Some(sender), amount, Cause::Transfer, memo);
    let mut out: Vec<CandidateEvent> = Vec::new();
    out.push(debit);
    out.push(credit);
    assert(out.deep_view() =~= transfer_pair(
        context@,
        sender@,
        receiver@,
        amount@,
        memo.deep_view(),
    ));
    out
}

/// A list of one event.
pub(crate) fn single(event: CandidateEvent) -> (out: Vec<CandidateEvent>)
    ensures
        out.deep_view() == seq![event@],
{
    let mut out: Vec<CandidateEvent> = Vec::new();
    out.push(event);
    assert(out.deep_view() =~= seq![event@]);
    out
}

/// A copy of an optional text.
pub fn copy_text(text: &Option<String>) -> (out: Option<String>)
    ensures
        out.deep_view() == text.deep_view(),
{
    match text {
        Some(t) => Some(t.clone()),
        None => None,
    }
}

/// A copy of an optional amount.
pub fn copy_amount(amount: &Option<Amount>) -> (out: Option<Amount>)
    ensures
        out.deep_view() == amount.deep_view(),
{
    match amount {
        Some(a) => Some(a.clone()),
        None => None,
    }
}

impl CandidateEvent {
    /// A copy of the event.
    pub fn duplicate(&self) -> (out: CandidateEvent)
        ensures
            out@ == self@,
    {
        CandidateEvent {
            contract_id: self.contract_id.clone(),
            affected_id: self.affected_id.clone(),
            involved_id: copy_text(&self.involved_id),
            delta: self.delta.clone(),
            cause: self.cause,
            memo: copy_text(&self.memo),
            block_height: self.block_height,
            block_timestamp: self.block_timestamp,
            shard_id: self.shard_id,
            absolute_amount: copy_amount(&self.absolute_amount),
            event_index: self.event_index,
        }
    }

    /// The balance that the event changes.
    pub fn key(&self) -> (out: AccountWithContract)
        ensures
            out@ == self@.key(),
    {
        AccountWithContract {
            account_id: self.affected_id.clone(),
            contract_account_id: self.contract_id.clone(),
        }
    }
}

/// The character for the hexadecimal digit `d`.
pub open spec fn hex_digit(d: nat) -> char {
    if d < 10 {
        (d + '0' as u32) as char
    } else {
        (d - 10 + 'a' as u32) as char
    }
}

/// `n` in hexadecimal digits, without leading zero.
pub open spec fn hex_text(n: nat) -> Seq<char>
    decreases n,
{
    if n < 16 {
        seq![hex_digit(n)]
    } else {
        hex_text(n / 16).push(hex_digit(n % 16))
    }
}

/// How one character is written: tab, carriage return, line feed, both
/// quotes and the backslash behind a backslash, the other printable ASCII
/// characters as they are, every other character by its code point in
/// hexadecimal digits.
pub open spec fn escaped_char(c: char) -> Seq<char> {
    if c == '\t' {
        seq!['\\', 't']
    } else if c == '\r' {
        seq!['\\', 'r']
    } else if c == '\n' {
        seq!['\\', 'n']
    } else if c == '\'' || c == '"' || c == '\\' {
        seq!['\\', c]
    } else if ' ' <= c <= '~' {
        seq![c]
    } else {
        seq!['\\', 'u', '{'] + hex_text(c as nat) + seq!['}']
    }
}

/// A text with every character written as `escaped_char` says.
pub open spec fn escaped(s: Seq<char>) -> Seq<char>
    decreases s.len(),
{
    if s.len() == 0 {
        Seq::empty()
    } else {
        escaped(s.drop_last()) + escaped_char(s.last())
    }
}

/// The escaped form of an optional memo.
pub open spec fn escaped_memo(memo: Option<Seq<char>>) -> Option<Seq<char>> {
    match memo {
        Some(m) => Some(escaped(m)),
        None => None,
    }
}

/// Appends the hexadecimal digits of `n` to `out`.
fn push_hex_text(n: u32, out: &mut Vec<char>)
    ensures
        final(out)@ == old(out)@ + hex_text(n as nat),
    decreases n,
{
    if n >= 16 {
        push_hex_text(n / 16, out);
    }
    let d: u8 = (n % 16) as u8;
    let c: char = if d < 10 { (d + 48u8) as char } else { (d - 10 + 97u8) as char };
    assert(c == hex_digit((n % 16) as nat));
    out.push(c);
    assert(final(out)@ =~= old(out)@ + hex_text(n as nat));
}

/// Appends the escaped form of `c` to `out`.
fn push_escaped_char(c: char, out: &mut Vec<char>)
    ensures
        final(out)@ == old(out)@ + escaped_char(c),
{
    if c == '\t' {
        out.push('\\');
        out.push('t');
    } else if c == '\r' {
        out.push('\\');
        out.push('r');
    } else if c == '\n' {
        out.push('\\');
        out.push('n');
    } else if c == '\'' || c == '"' || c == '\\' {
        out.push('\\');
        out.push(c);
    } else if ' ' <= c && c <= '~' {
        out.push(c);
    } else {
        out.push('\\');
        out.push('u');
        out.push('{');
        push_hex_text(c as u32, out);
        out.push('}');
    }
    assert(final(out)@ =~= old(out)@ + escaped_char(c));
}

/// Writes a text free of control characters, quotes and characters beyond
/// ASCII: each is replaced by its escape.
pub fn escape_default(text: &str) -> (out: String)
    ensures
        out@ == escaped(text@),
{
    let chars = chars_of(text);
    let mut out: Vec<char> = Vec::new();
    let mut i: usize = 0;
    while i < chars.len()
        invariant
            i <= chars.len(),
            out@ == escaped(chars@.take(i as int)),
        decreases chars.len() - i,
    {
        assert(chars@.take(i + 1).drop_last() =~= chars@.take(i as int));
        push_escaped_char(chars[i], &mut out);
        i = i + 1;
    }
    assert(chars@.take(i as int) =~= chars@);
    string_from_chars(&out)
}

/// The escaped form of an optional memo.
pub fn escape_memo(memo: &Option<String>) -> (out: Option<String>)
    ensures
        out.deep_view() == escaped_memo(memo.deep_view()),
{
    match memo {
        Some(m) => Some(escape_default(m.as_str())),
        None => None,
    }
}

} // verus!
