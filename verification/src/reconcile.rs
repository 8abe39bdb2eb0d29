//! The correctness gate: the balance changes of one block are kept only for
//! contracts whose accounts end the block with the balance that the changes
//! predict.

use crate::amount::Amount;
use crate::cache::{
    after_look, after_store, balance_of, distinct_keys, lemma_after_look, BalanceEntry,
    FtBalanceCache,
};
use crate::coin::{AccountWithContract, AccountWithContractView, CandidateEvent, CandidateEventView};
use crate::contracts::{
    is_inconsistent, lemma_marked, marked, place_of, registered, ContractView, ContractsHelper,
};
use crate::outcome::BlockHeader;
use crate::text::same_text;
use vstd::prelude::*;

verus! {

/// The sum of the changes that the events make to the balance `key`.
pub open spec fn net_delta(events: Seq<CandidateEventView>, key: AccountWithContractView) -> int
    decreases events.len(),
{
    if events.len() == 0 {
        0
    } else {
        net_delta(events.drop_last(), key) + (if events.last().key() == key {
            events.last().delta
        } else {
            0
        })
    }
}

/// The balances that the events change, each once, in the order in which
/// the events first touch them.
pub open spec fn touched_accounts(events: Seq<CandidateEventView>) -> Seq<AccountWithContractView>
    decreases events.len(),
{
    if events.len() == 0 {
        Seq::empty()
    } else {
        let front = touched_accounts(events.drop_last());
        if front.contains(events.last().key()) {
            front
        } else {
            front.push(events.last().key())
        }
    }
}

/// No balance stands twice among the touched ones, and every event changes
/// one of them.
pub proof fn lemma_touched_accounts(events: Seq<CandidateEventView>)
    ensures
        touched_accounts(events).no_duplicates(),
        forall|i: int|
            0 <= i < events.len() ==> touched_accounts(events).contains((#[trigger] events[i]).key()),
    decreases events.len(),
{
    if events.len() > 0 {
        let front_events = events.drop_last();
        let front = touched_accounts(front_events);
        let all = touched_accounts(events);
        let key = events.last().key();
        lemma_touched_accounts(front_events);
        assert forall|i: int| 0 <= i < events.len() implies all.contains(
            (#[trigger] events[i]).key(),
        ) by {
            if i < events.len() - 1 {
                assert(front_events[i] == events[i]);
                let w = choose|w: int| 0 <= w < front.len() && front[w] == events[i].key();
                assert(all[w] == events[i].key());
            } else if front.contains(key) {
            } else {
                assert(all[front.len() as int] == key);
            }
        }
    }
}

/// Whether two keys name the same balance.
pub(crate) fn same_account(a: &AccountWithContract, b: &AccountWithContract) -> (same: bool)
    ensures
        same == (a@ == b@),
{
    same_text(a.account_id.as_str(), b.account_id.as_str()) && same_text(
        a.contract_account_id.as_str(),
        b.contract_account_id.as_str(),
    )
}

/// Finds the place of `key` among `accounts`.
pub(crate) fn find_account(accounts: &Vec<AccountWithContract>, key: &AccountWithContract) -> (out: Option<
    usize,
>)
    ensures
        match out {
            Some(k) => k < accounts.len() && accounts.deep_view()[k as int] == key@,
            None => !accounts.deep_view().contains(key@),
        },
{
    let mut k: usize = 0;
    while k < accounts.len()
        invariant
            k <= accounts.len(),
            forall|j: int| 0 <= j < k ==> accounts.deep_view()[j] != key@,
        decreases accounts.len() - k,
    {
        assert(accounts.deep_view()[k as int] == accounts[k as int]@);
        if same_account(&accounts[k], key) {
            return Some(k);
        }
        k = k + 1;
    }
    None
}

/// Lists the balances that the events change.
pub fn list_touched_accounts(events: &Vec<CandidateEvent>) -> (out: Vec<AccountWithContract>)
    ensures
        out.deep_view() == touched_accounts(events.deep_view()),
{
    let mut out: Vec<AccountWithContract> = Vec::new();
    let mut i: usize = 0;
    let ghost all = events.deep_view();
    assert(out.deep_view() =~= touched_accounts(all.take(0)));
    while i < events.len()
        invariant
            i <= events.len(),
            all == events.deep_view(),
            out.deep_view() == touched_accounts(all.take(i as int)),
        decreases events.len() - i,
    {
        proof {
            assert(all.take(i + 1).drop_last() =~= all.take(i as int));
            assert(all[i as int] == events[i as int]@);
        }
        let key = events[i].key();
        if find_account(&out, &key).is_none() {
            let ghost before = out.deep_view();
            out.push(key);
            assert(out.deep_view() =~= before.push(key@));
        }
        i = i + 1;
    }
    assert(all.take(i as int) =~= all);
    out
}


/// The events without those of contracts that have been found inconsistent.
pub open spec fn consistent_events(events: Seq<CandidateEventView>, rows: Seq<ContractView>) -> Seq<
    CandidateEventView,
> {
    events.filter(|e: CandidateEventView| !is_inconsistent(rows, e.contract_id))
}

/// Of the events that are left none belongs to a contract that has been
/// found inconsistent.
pub proof fn lemma_consistent_events(events: Seq<CandidateEventView>, rows: Seq<ContractView>)
    ensures
        forall|i: int|
            0 <= i < consistent_events(events, rows).len() ==> !is_inconsistent(
                rows,
                (#[trigger] consistent_events(events, rows)[i]).contract_id,
            ),
{
    let keep = |e: CandidateEventView| !is_inconsistent(rows, e.contract_id);
    assert forall|i: int| 0 <= i < events.filter(keep).len() implies !is_inconsistent(
        rows,
        (#[trigger] events.filter(keep)[i]).contract_id,
    ) by {
        events.lemma_filter_pred(keep, i);
    }
}

/// Drops the events of contracts that have been found inconsistent.
pub fn drop_inconsistent(events: &Vec<CandidateEvent>, contracts: &ContractsHelper) -> (out: Vec<
    CandidateEvent,
>)
    ensures
        out.deep_view() == consistent_events(events.deep_view(), contracts@),
{
    let mut out: Vec<CandidateEvent> = Vec::new();
    let mut i: usize = 0;
    let ghost all = events.deep_view();
    let ghost rows = contracts@;
    assert(out.deep_view() =~= consistent_events(all.take(0), rows));
    while i < events.len()
        invariant
            i <= events.len(),
            all == events.deep_view(),
            rows == contracts@,
            out.deep_view() == consistent_events(all.take(i as int), rows),
        decreases events.len() - i,
    {
        proof {
            assert(all.take(i + 1).drop_last() =~= all.take(i as int));
            assert(all[i as int] == events[i as int]@);
            reveal(Seq::filter);
        }
        if !contracts.is_inconsistent(events[i].contract_id.as_str()) {
            let copy = events[i].duplicate();
            let ghost before = out.deep_view();
            out.push(copy);
            assert(out.deep_view() =~= before.push(copy@));
        }
        i = i + 1;
    }
    assert(all.take(i as int) =~= all);
    out
}

/// The rows once the contracts of the first `count` events are registered,
/// each as first seen in the block of its event.
pub open spec fn rows_with_contracts(
    rows: Seq<ContractView>,
    events: Seq<CandidateEventView>,
    standard: Seq<char>,
    count: nat,
) -> Seq<ContractView>
    decreases count,
{
    if count == 0 {
        rows
    } else {
        let event = events[count - 1];
        registered(
            rows_with_contracts(rows, events, standard, (count - 1) as nat),
            event.contract_id,
            standard,
            event.block_height,
            event.block_timestamp,
        )
    }
}

/// Registers the contract of every event, unless it is known.
pub fn register_new_contracts(
    events: &Vec<CandidateEvent>,
    contracts: &mut ContractsHelper,
    standard: &str,
)
    requires
        old(contracts).wf(),
    ensures
        final(contracts).wf(),
        final(contracts)@ == rows_with_contracts(
            old(contracts)@,
            events.deep_view(),
            standard@,
            events.len() as nat,
        ),
{
    let mut i: usize = 0;
    let ghost start = contracts@;
    while i < events.len()
        invariant
            i <= events.len(),
            contracts.wf(),
            contracts@ == rows_with_contracts(start, events.deep_view(), standard@, i as nat),
        decreases events.len() - i,
    {
        let event = &events[i];
        assert(events.deep_view()[i as int] == event@);
        contracts.register_new(
            event.contract_id.as_str(),
            standard,
            event.block_height,
            event.block_timestamp,
        );
        i = i + 1;
    }
}

/// A question to the archival node: the balance of an account within a
/// contract, as of the end of the block with the given hash.
#[derive(Debug, Clone, PartialEq, Eq)]
pub struct BalanceQuery {
    pub account_id: String,
    pub contract_id: String,
    pub block_hash: String,
}

pub struct BalanceQueryView {
    pub account_id: Seq<char>,
    pub contract_id: Seq<char>,
    pub block_hash: Seq<char>,
}

impl DeepView for BalanceQuery {
    type V = BalanceQueryView;

    open spec fn deep_view(&self) -> BalanceQueryView {
        BalanceQueryView {
            account_id: self.account_id@,
            contract_id: self.contract_id@,
            block_hash: self.block_hash@,
        }
    }
}

/// The question for the balance `key` as of the block `block_hash`.
pub open spec fn query_for(key: AccountWithContractView, block_hash: Seq<char>) -> BalanceQueryView {
    BalanceQueryView {
        account_id: key.account_id,
        contract_id: key.contract_account_id,
        block_hash,
    }
}

/// The cache after a look under each of the first `count` accounts.
pub open spec fn looked_up(
    entries: Seq<BalanceEntry>,
    accounts: Seq<AccountWithContractView>,
    count: nat,
) -> Seq<BalanceEntry>
    decreases count,
{
    if count == 0 {
        entries
    } else {
        after_look(looked_up(entries, accounts, (count - 1) as nat), accounts[count - 1])
    }
}

/// The cache after a look under each of the accounts.
pub open spec fn looked_up_by(entries: Seq<BalanceEntry>, accounts: Seq<AccountWithContractView>) -> Seq<
    BalanceEntry,
> {
    looked_up(entries, accounts, accounts.len())
}

/// Looks change the order of the entries, not what is kept under a key.
pub proof fn lemma_looked_up(
    entries: Seq<BalanceEntry>,
    accounts: Seq<AccountWithContractView>,
    count: nat,
)
    requires
        distinct_keys(entries),
    ensures
        distinct_keys(looked_up(entries, accounts, count)),
        looked_up(entries, accounts, count).len() == entries.len(),
        forall|key: AccountWithContractView|
            balance_of(looked_up(entries, accounts, count), key) == balance_of(entries, key),
    decreases count,
{
    if count > 0 {
        lemma_looked_up(entries, accounts, (count - 1) as nat);
        lemma_after_look(looked_up(entries, accounts, (count - 1) as nat), accounts[count - 1]);
    }
}

/// The questions for the starting balances that are not known: one for each
/// of the first `count` accounts whose balance the cache did not hold, as of
/// the block before.
pub open spec fn start_queries_for(
    accounts: Seq<AccountWithContractView>,
    known: Seq<Option<u128>>,
    prev_hash: Seq<char>,
    count: nat,
) -> Seq<BalanceQueryView>
    decreases count,
{
    if count == 0 {
        Seq::empty()
    } else {
        let front = start_queries_for(accounts, known, prev_hash, (count - 1) as nat);
        if known[count - 1] is None {
            front.push(query_for(accounts[count - 1], prev_hash))
        } else {
            front
        }
    }
}

/// The questions for the ending balances: one for each account, as of the
/// block itself.
pub open spec fn end_queries_for(accounts: Seq<AccountWithContractView>, hash: Seq<char>) -> Seq<
    BalanceQueryView,
> {
    Seq::new(accounts.len(), |k: int| query_for(accounts[k], hash))
}

/// The starting balances: what the cache held, and for each balance that it
/// did not hold the next of the answers. Nothing where the answers are too
/// few or too many.
pub open spec fn merged_starts(known: Seq<Option<u128>>, answers: Seq<u128>) -> Option<Seq<u128>>
    decreases known.len(),
{
    if known.len() == 0 {
        if answers.len() == 0 {
            Some(Seq::empty())
        } else {
            None
        }
    } else {
        match known.last() {
            Some(balance) => match merged_starts(known.drop_last(), answers) {
                Some(front) => Some(front.push(balance)),
                None => None,
            },
            None => if answers.len() == 0 {
                None
            } else {
                match merged_starts(known.drop_last(), answers.drop_last()) {
                    Some(front) => Some(front.push(answers.last())),
                    None => None,
                }
            },
        }
    }
}

/// The number of balances that are not known.
pub open spec fn unknown_count(known: Seq<Option<u128>>) -> nat
    decreases known.len(),
{
    if known.len() == 0 {
        0
    } else {
        unknown_count(known.drop_last()) + (if known.last() is None {
            1nat
        } else {
            0nat
        })
    }
}

/// The starting balances are complete exactly when there is one answer for
/// each balance that is not known.
pub proof fn lemma_merged_starts(known: Seq<Option<u128>>, answers: Seq<u128>)
    ensures
        merged_starts(known, answers) is Some <==> answers.len() == unknown_count(known),
        merged_starts(known, answers) is Some ==> merged_starts(known, answers)->0.len()
            == known.len(),
    decreases known.len(),
{
    if known.len() > 0 {
        match known.last() {
            Some(_) => lemma_merged_starts(known.drop_last(), answers),
            None => if answers.len() > 0 {
                lemma_merged_starts(known.drop_last(), answers.drop_last());
            },
        }
    }
}

/// A longer list holds no fewer unknown balances than its beginning.
pub proof fn lemma_unknown_count_grows(known: Seq<Option<u128>>, count: int)
    requires
        0 <= count <= known.len(),
    ensures
        unknown_count(known.take(count)) <= unknown_count(known),
    decreases known.len() - count,
{
    if count < known.len() {
        lemma_unknown_count_grows(known.drop_last(), count);
        assert(known.drop_last().take(count) =~= known.take(count));
    } else {
        assert(known.take(count) =~= known);
    }
}

/// Puts the answers of the archival node in the places of the starting
/// balances that the cache did not hold.
pub fn merge_starts(known: &Vec<Option<u128>>, answers: &Vec<u128>) -> (out: Option<Vec<u128>>)
    ensures
        match out {
            Some(starts) => merged_starts(known@, answers@) == Some(starts@),
            None => merged_starts(known@, answers@) is None,
        },
{
    let mut out: Vec<u128> = Vec::new();
    let mut i: usize = 0;
    let mut j: usize = 0;
    assert(known@.take(0) =~= Seq::<Option<u128>>::empty());
    assert(answers@.take(0) =~= Seq::<u128>::empty());
    while i < known.len()
        invariant
            i <= known.len(),
            j <= answers.len(),
            j == unknown_count(known@.take(i as int)),
            merged_starts(known@.take(i as int), answers@.take(j as int)) == Some(out@),
        decreases known.len() - i,
    {
        proof {
            assert(known@.take(i + 1).drop_last() =~= known@.take(i as int));
            assert(known@.take(i + 1).last() == known@[i as int]);
        }
        match known[i] {
            Some(balance) => {
                out.push(balance);
            },
            None => {
                if j >= answers.len() {
                    proof {
                        lemma_unknown_count_grows(known@, i + 1);
                        lemma_merged_starts(known@, answers@);
                    }
                    return None;
                }
                proof {
                    assert(answers@.take(j + 1).drop_last() =~= answers@.take(j as int));
                }
                out.push(answers[j]);
                j = j + 1;
            },
        }
        i = i + 1;
    }
    proof {
        assert(known@.take(i as int) =~= known@);
        lemma_merged_starts(known@, answers@);
        if j == answers.len() {
            assert(answers@.take(j as int) =~= answers@);
        }
    }
    if j == answers.len() {
        Some(out)
    } else {
        None
    }
}


/// The balance of the account that the event at place `i` changes, once the
/// events up to and with that one have taken place.
pub open spec fn running_balance(
    events: Seq<CandidateEventView>,
    accounts: Seq<AccountWithContractView>,
    starts: Seq<u128>,
    i: int,
) -> int {
    let key = events[i].key();
    starts[accounts.index_of(key)] + net_delta(events.take(i + 1), key)
}

/// The balances that the archival node answered with, where it knew every
/// one of them.
pub open spec fn all_known(answers: Seq<Option<u128>>) -> Option<Seq<u128>> {
    if forall|i: int| 0 <= i < answers.len() ==> (#[trigger] answers[i]) is Some {
        Some(Seq::new(answers.len(), |i: int| answers[i]->0))
    } else {
        None
    }
}

/// Takes the balances out of the answers, if every answer holds one.
pub fn known_balances(answers: &Vec<Option<u128>>) -> (out: Option<Vec<u128>>)
    ensures
        match out {
            Some(balances) => all_known(answers@) == Some(balances@),
            None => all_known(answers@) is None,
        },
{
    let mut out: Vec<u128> = Vec::new();
    let mut i: usize = 0;
    while i < answers.len()
        invariant
            i <= answers.len(),
            out.len() == i,
            forall|j: int| 0 <= j < i ==> (#[trigger] answers[j]) == Some(out[j]),
        decreases answers.len() - i,
    {
        match answers[i] {
            Some(balance) => {
                out.push(balance);
            },
            None => {
                assert(answers@[i as int] is None);
                return None;
            },
        }
        i = i + 1;
    }
    assert(out@ =~= all_known(answers@)->0);
    Some(out)
}

/// The books of one block: the events, the balances that they touch, and
/// for each of them the balance before the block and the balance after it.
pub struct Ledger {
    pub events: Seq<CandidateEventView>,
    pub accounts: Seq<AccountWithContractView>,
    pub starts: Seq<u128>,
    pub ends: Seq<u128>,
}

impl Ledger {
    /// The accounts are the touched ones, and each has its two balances.
    pub open spec fn wf(self) -> bool {
        &&& self.accounts == touched_accounts(self.events)
        &&& self.starts.len() == self.accounts.len()
        &&& self.ends.len() == self.accounts.len()
    }

    /// Whether the changes of the block take the account at place `k` from
    /// its balance before the block to its balance after it.
    pub open spec fn account_ok(self, k: int) -> bool {
        self.starts[k] + net_delta(self.events, self.accounts[k]) == self.ends[k]
    }

    /// Whether every touched account of the contract is in order.
    pub open spec fn contract_ok(self, contract: Seq<char>) -> bool {
        forall|k: int|
            0 <= k < self.accounts.len() && (#[trigger] self.accounts[k]).contract_account_id
                == contract ==> self.account_ok(k)
    }

    /// The balance of the account that the event at place `i` changes, once
    /// the events up to and with that one have taken place.
    pub open spec fn balance_after(self, i: int) -> int {
        running_balance(self.events, self.accounts, self.starts, i)
    }

    /// The event at place `i` with the balance that it leaves.
    pub open spec fn settled_event(self, i: int) -> CandidateEventView {
        CandidateEventView { absolute_amount: Some(self.balance_after(i)), ..self.events[i] }
    }

    /// Of the first `count` events those that are kept: the events of the
    /// contracts that are in order, each with the balance that it leaves.
    pub open spec fn committed(self, count: nat) -> Seq<CandidateEventView>
        decreases count,
    {
        if count == 0 {
            Seq::empty()
        } else {
            let front = self.committed((count - 1) as nat);
            let event = self.events[count - 1];
            if self.contract_ok(event.contract_id) {
                front.push(self.settled_event(count - 1))
            } else {
                front
            }
        }
    }

    /// The contract rows once the first `count` accounts are judged: the
    /// contract of an account that is not in order is marked inconsistent
    /// as of the given block.
    pub open spec fn rows_after(
        self,
        rows: Seq<ContractView>,
        height: u64,
        timestamp: u64,
        count: nat,
    ) -> Seq<ContractView>
        decreases count,
    {
        if count == 0 {
            rows
        } else {
            let front = self.rows_after(rows, height, timestamp, (count - 1) as nat);
            if self.account_ok(count - 1) {
                front
            } else {
                marked(front, self.accounts[count - 1].contract_account_id, height, timestamp)
            }
        }
    }

    /// The cache once the first `count` accounts are judged: the balance
    /// after the block is kept for each account of a contract in order.
    pub open spec fn cache_after(self, entries: Seq<BalanceEntry>, limit: nat, count: nat) -> Seq<
        BalanceEntry,
    >
        decreases count,
    {
        if count == 0 {
            entries
        } else {
            let front = self.cache_after(entries, limit, (count - 1) as nat);
            if self.contract_ok(self.accounts[count - 1].contract_account_id) {
                after_store(front, self.accounts[count - 1], self.ends[count - 1], limit)
            } else {
                front
            }
        }
    }
}

/// The reconciliation of one block under way: the events, the balances that
/// they touch, and what the cache knew of each at the start.
pub struct Reconciliation {
    events: Vec<CandidateEvent>,
    accounts: Vec<AccountWithContract>,
    known: Vec<Option<u128>>,
}

/// Why a block could not be settled.
#[derive(Debug, Clone, Copy, PartialEq, Eq, Structural)]
pub enum SettleError {
    /// The answers for the starting balances do not match the questions.
    StartAnswers,
    /// The answers for the ending balances do not match the questions.
    EndAnswers,
    /// The archival node knows no balance where one was asked for. Such a
    /// balance is never taken for zero.
    MissingBalance,
}

impl Reconciliation {
    /// The events under reconciliation.
    pub closed spec fn events(&self) -> Seq<CandidateEventView> {
        self.events.deep_view()
    }

    /// The balances that the events touch.
    pub closed spec fn accounts(&self) -> Seq<AccountWithContractView> {
        self.accounts.deep_view()
    }

    /// What the cache held for each balance at the start.
    pub closed spec fn known(&self) -> Seq<Option<u128>> {
        self.known@
    }

    /// The accounts are the touched ones, each with what was known of it.
    pub open spec fn wf(&self) -> bool {
        &&& self.accounts() == touched_accounts(self.events())
        &&& self.known().len() == self.accounts().len()
    }

    /// Takes up the events of one block and looks up in the cache the
    /// balance of every account that they touch.
    pub fn begin(events: Vec<CandidateEvent>, cache: &mut FtBalanceCache) -> (out: Reconciliation)
        requires
            old(cache).wf(),
        ensures
            out.wf(),
            out.events() == events.deep_view(),
            forall|k: int|
                0 <= k < out.accounts().len() ==> (#[trigger] out.known()[k]) == balance_of(
                    old(cache)@,
                    out.accounts()[k],
                ),
            final(cache).wf(),
            final(cache).limit() == old(cache).limit(),
            final(cache)@ == looked_up_by(old(cache)@, out.accounts()),
    {
        let accounts = list_touched_accounts(&events);
        let mut known: Vec<Option<u128>> = Vec::new();
        let ghost start = cache@;
        let ghost keys = accounts.deep_view();
        let mut k: usize = 0;
        while k < accounts.len()
            invariant
                k <= accounts.len(),
                keys == accounts.deep_view(),
                known.len() == k,
                cache.wf(),
                start == old(cache)@,
                distinct_keys(start),
                cache.limit() == old(cache).limit(),
                cache@ == looked_up(start, keys, k as nat),
                forall|j: int| 0 <= j < k ==> (#[trigger] known@[j]) == balance_of(start, keys[j]),
            decreases accounts.len() - k,
        {
            proof {
                lemma_looked_up(start, keys, k as nat);
                assert(keys[k as int] == accounts[k as int]@);
            }
            let found = cache.get(&accounts[k]);
            known.push(found);
            k = k + 1;
        }
        Reconciliation { events, accounts, known }
    }

    /// The questions for the starting balances that the cache did not hold.
    pub fn start_queries(&self, header: &BlockHeader) -> (out: Vec<BalanceQuery>)
        requires
            self.wf(),
        ensures
            out.deep_view() == start_queries_for(
                self.accounts(),
                self.known(),
                header@.prev_hash,
                self.accounts().len(),
            ),
            out.len() == unknown_count(self.known()),
    {
        let mut out: Vec<BalanceQuery> = Vec::new();
        let mut k: usize = 0;
        assert(out.deep_view() =~= Seq::<BalanceQueryView>::empty());
        assert(self.known@.take(0) =~= Seq::<Option<u128>>::empty());
        while k < self.accounts.len()
            invariant
                k <= self.accounts.len(),
                self.wf(),
                out.len() == unknown_count(self.known().take(k as int)),
                out.deep_view() == start_queries_for(
                    self.accounts(),
                    self.known(),
                    header@.prev_hash,
                    k as nat,
                ),
            decreases self.accounts.len() - k,
        {
            proof {
                assert(self.known().take(k + 1).drop_last() =~= self.known().take(k as int));
                assert(self.accounts()[k as int] == self.accounts[k as int]@);
            }
            if self.known[k].is_none() {
                let query = BalanceQuery {
                    account_id: self.accounts[k].account_id.clone(),
                    contract_id: self.accounts[k].contract_account_id.clone(),
                    block_hash: header.prev_hash.clone(),
                };
                let ghost before = out.deep_view();
                out.push(query);
                assert(out.deep_view() =~= before.push(query.deep_view()));
            }
            k = k + 1;
        }
        assert(self.known().take(k as int) =~= self.known());
        out
    }

    /// The questions for the ending balances, one for each touched account.
    pub fn end_queries(&self, header: &BlockHeader) -> (out: Vec<BalanceQuery>)
        requires
            self.wf(),
        ensures
            out.deep_view() == end_queries_for(self.accounts(), header@.hash),
    {
        let mut out: Vec<BalanceQuery> = Vec::new();
        let mut k: usize = 0;
        let ghost goal = end_queries_for(self.accounts(), header@.hash);
        assert(out.deep_view() =~= goal.take(0));
        while k < self.accounts.len()
            invariant
                k <= self.accounts.len(),
                goal == end_queries_for(self.accounts(), header@.hash),
                out.deep_view() == goal.take(k as int),
            decreases self.accounts.len() - k,
        {
            assert(self.accounts()[k as int] == self.accounts[k as int]@);
            let query = BalanceQuery {
                account_id: self.accounts[k].account_id.clone(),
                contract_id: self.accounts[k].contract_account_id.clone(),
                block_hash: header.hash.clone(),
            };
            let ghost before = out.deep_view();
            out.push(query);
            assert(out.deep_view() =~= before.push(query.deep_view()));
            assert(goal[k as int] == query.deep_view());
            assert(out.deep_view() =~= goal.take(k + 1));
            k = k + 1;
        }
        assert(goal.take(k as int) =~= goal);
        out
    }
}


/// Adding the event at place `i` changes the sum for its own balance only.
proof fn lemma_net_delta_step(
    events: Seq<CandidateEventView>,
    i: int,
    key: AccountWithContractView,
)
    requires
        0 <= i < events.len(),
    ensures
        net_delta(events.take(i + 1), key) == net_delta(events.take(i), key) + (if events[i].key()
            == key {
            events[i].delta
        } else {
            0
        }),
{
    assert(events.take(i + 1).drop_last() =~= events.take(i));
}

/// Follows each touched balance through the events: returns, for every
/// account, its balance after the last event, and for every event the
/// balance that it leaves.
pub(crate) fn follow_balances(
    events: &Vec<CandidateEvent>,
    accounts: &Vec<AccountWithContract>,
    starts: &Vec<u128>,
) -> (out: (Vec<Amount>, Vec<Amount>))
    requires
        accounts.deep_view() == touched_accounts(events.deep_view()),
        starts.len() == accounts.len(),
    ensures
        out.0.len() == accounts.len(),
        forall|k: int|
            0 <= k < accounts.len() ==> (#[trigger] out.0.deep_view()[k]) == starts[k] + net_delta(
                events.deep_view(),
                accounts.deep_view()[k],
            ),
        out.1.len() == events.len(),
        forall|i: int|
            0 <= i < events.len() ==> (#[trigger] out.1.deep_view()[i]) == running_balance(
                events.deep_view(),
                accounts.deep_view(),
                starts@,
                i,
            ),
{
    let ghost all = events.deep_view();
    let ghost keys = accounts.deep_view();
    let mut running: Vec<Amount> = Vec::new();
    let mut k: usize = 0;
    while k < starts.len()
        invariant
            k <= starts.len(),
            running.len() == k,
            forall|j: int| 0 <= j < k ==> (#[trigger] running.deep_view()[j]) == starts[j],
        decreases starts.len() - k,
    {
        let amount = Amount::from_u128(starts[k]);
        let ghost before = running.deep_view();
        running.push(amount);
        assert(running.deep_view() =~= before.push(amount@));
        k = k + 1;
    }
    let mut left: Vec<Amount> = Vec::new();
    let mut i: usize = 0;
    proof {
        lemma_touched_accounts(all);
    }
    while i < events.len()
        invariant
            i <= events.len(),
            all == events.deep_view(),
            keys == accounts.deep_view(),
            keys == touched_accounts(all),
            keys.no_duplicates(),
            forall|j: int| 0 <= j < all.len() ==> keys.contains((#[trigger] all[j]).key()),
            starts.len() == accounts.len(),
            running.len() == accounts.len(),
            left.len() == i,
            forall|j: int|
                0 <= j < accounts.len() ==> (#[trigger] running.deep_view()[j]) == starts[j]
                    + net_delta(all.take(i as int), keys[j]),
            forall|j: int|
                0 <= j < i ==> (#[trigger] left.deep_view()[j]) == running_balance(
                    all,
                    keys,
                    starts@,
                    j,
                ),
        decreases events.len() - i,
    {
        let event = &events[i];
        assert(all[i as int] == event@);
        let key = event.key();
        assert(keys.contains(key@));
        match find_account(accounts, &key) {
            Some(k) => {
                let ghost before = running.deep_view();
                let ghost left_before = left.deep_view();
                assert(running.deep_view()[k as int] == running[k as int]@);
                let next = running[k].plus(&event.delta);
                let copy = next.clone();
                running.set(k, next);
                left.push(copy);
                proof {
                    assert(keys.index_of(key@) == k) by {
                        let w = keys.index_of(key@);
                        assert(keys[w] == key@);
                    }
                    assert forall|j: int| 0 <= j < accounts.len() implies (
                    #[trigger] running.deep_view()[j]) == starts[j] + net_delta(
                        all.take(i + 1),
                        keys[j],
                    ) by {
                        lemma_net_delta_step(all, i as int, keys[j]);
                        if j == k {
                            assert(running.deep_view()[j] == next@);
                        } else {
                            assert(running.deep_view()[j] == before[j]);
                            assert(keys[j] != keys[k as int]);
                        }
                    }
                    assert forall|j: int| 0 <= j < i + 1 implies (
                    #[trigger] left.deep_view()[j]) == running_balance(all, keys, starts@, j) by {
                        if j < i {
                            assert(left.deep_view()[j] == left_before[j]);
                        } else {
                            assert(left.deep_view()[j] == copy@);
                            lemma_net_delta_step(all, i as int, key@);
                        }
                    }
                }
            },
            None => {
                // Every event changes one of the touched balances.
                assert(false);
            },
        }
        i = i + 1;
    }
    assert(all.take(i as int) =~= all);
    (running, left)
}


/// Tells of each account whether it is in order: whether the balance that
/// the events lead to is the balance after the block.
pub(crate) fn judge_accounts(running: &Vec<Amount>, ends: &Vec<u128>) -> (out: Vec<bool>)
    requires
        running.len() == ends.len(),
    ensures
        out.len() == ends.len(),
        forall|k: int|
            0 <= k < ends.len() ==> (#[trigger] out[k]) == (running.deep_view()[k] == ends[k]),
{
    let mut out: Vec<bool> = Vec::new();
    let mut k: usize = 0;
    while k < ends.len()
        invariant
            k <= ends.len(),
            running.len() == ends.len(),
            out.len() == k,
            forall|j: int|
                0 <= j < k ==> (#[trigger] out[j]) == (running.deep_view()[j] == ends[j]),
        decreases ends.len() - k,
    {
        assert(running.deep_view()[k as int] == running[k as int]@);
        let same = running[k].same(&Amount::from_u128(ends[k]));
        out.push(same);
        k = k + 1;
    }
    out
}

/// Whether every account of the contract is in order.
pub open spec fn all_in_order(
    accounts: Seq<AccountWithContractView>,
    findings: Seq<bool>,
    contract: Seq<char>,
) -> bool {
    forall|k: int|
        0 <= k < accounts.len() && (#[trigger] accounts[k]).contract_account_id == contract
            ==> findings[k]
}

/// Tells whether every account of the contract is in order.
pub(crate) fn contract_in_order(
    accounts: &Vec<AccountWithContract>,
    findings: &Vec<bool>,
    contract: &str,
) -> (b: bool)
    requires
        findings.len() == accounts.len(),
    ensures
        b == all_in_order(accounts.deep_view(), findings@, contract@),
{
    let mut k: usize = 0;
    while k < accounts.len()
        invariant
            k <= accounts.len(),
            findings.len() == accounts.len(),
            forall|j: int|
                0 <= j < k && (#[trigger] accounts.deep_view()[j]).contract_account_id == contract@
                    ==> findings[j],
        decreases accounts.len() - k,
    {
        assert(accounts.deep_view()[k as int] == accounts[k as int]@);
        if !findings[k] && same_text(accounts[k].contract_account_id.as_str(), contract) {
            return false;
        }
        k = k + 1;
    }
    true
}

impl Reconciliation {
    /// The books of the block, once the balances before and after it are
    /// known.
    pub open spec fn ledger(&self, starts: Seq<u128>, ends: Seq<u128>) -> Ledger {
        Ledger { events: self.events(), accounts: self.accounts(), starts, ends }
    }

    /// Settles the block. `start_answers` answers `start_queries` and
    /// `end_answers` answers `end_queries`, each in the order of the
    /// questions.
    ///
    /// A contract with an account that does not end the block with the
    /// balance that the events lead to is marked inconsistent as of this
    /// block, and all its events of the block are dropped. The events of
    /// the other contracts are returned in their order, each with the
    /// balance that it leaves, and the cache keeps the balance after the
    /// block of each of their accounts.
    ///
    /// Answers that do not match the questions in number settle nothing.
    pub fn settle(
        self,
        start_answers: &Vec<u128>,
        end_answers: &Vec<u128>,
        cache: &mut FtBalanceCache,
        contracts: &mut ContractsHelper,
        header: &BlockHeader,
    ) -> (out: Result<Vec<CandidateEvent>, SettleError>)
        requires
            self.wf(),
            old(cache).wf(),
            old(contracts).wf(),
        ensures
            final(cache).wf(),
            final(cache).limit() == old(cache).limit(),
            final(contracts).wf(),
            match merged_starts(self.known(), start_answers@) {
                None => {
                    &&& out == Err::<Vec<CandidateEvent>, _>(SettleError::StartAnswers)
                    &&& final(cache)@ == old(cache)@
                    &&& final(contracts)@ == old(contracts)@
                },
                Some(starts) => if end_answers.len() != self.accounts().len() {
                    &&& out == Err::<Vec<CandidateEvent>, _>(SettleError::EndAnswers)
                    &&& final(cache)@ == old(cache)@
                    &&& final(contracts)@ == old(contracts)@
                } else {
                    let ledger = self.ledger(starts, end_answers@);
                    &&& out matches Ok(kept)
                    &&& kept.deep_view() == ledger.committed(ledger.events.len())
                    &&& final(contracts)@ == ledger.rows_after(
                        old(contracts)@,
                        header@.height,
                        header@.timestamp,
                        ledger.accounts.len(),
                    )
                    &&& final(cache)@ == ledger.cache_after(
                        old(cache)@,
                        old(cache).limit(),
                        ledger.accounts.len(),
                    )
                },
            },
    {
        let starts = match merge_starts(&self.known, start_answers) {
            Some(starts) => starts,
            None => {
                return Err(SettleError::StartAnswers);
            },
        };
        if end_answers.len() != self.accounts.len() {
            return Err(SettleError::EndAnswers);
        }
        proof {
            lemma_merged_starts(self.known(), start_answers@);
        }
        let ghost ledger = self.ledger(starts@, end_answers@);
        let (running, left) = follow_balances(&self.events, &self.accounts, &starts);
        let findings = judge_accounts(&running, end_answers);
        assert forall|k: int| 0 <= k < ledger.accounts.len() implies (#[trigger] findings[k])
            == ledger.account_ok(k) by {
            assert(running.deep_view()[k] == starts[k] + net_delta(
                ledger.events,
                ledger.accounts[k],
            ));
        }
        assert forall|contract: Seq<char>|
            all_in_order(ledger.accounts, findings@, contract) == ledger.contract_ok(contract) by {
            if all_in_order(ledger.accounts, findings@, contract) {
                assert forall|k: int|
                    0 <= k < ledger.accounts.len() && (
                    #[trigger] ledger.accounts[k]).contract_account_id
                        == contract implies ledger.account_ok(k) by {
                    assert(findings[k]);
                }
            } else {
                let k = choose|k: int|
                    0 <= k < ledger.accounts.len() && (
                    #[trigger] ledger.accounts[k]).contract_account_id == contract && !findings[k];
                assert(!ledger.account_ok(k));
            }
        }
        let ghost rows = contracts@;
        let ghost entries = cache@;
        let ghost limit = cache.limit();
        let mut k: usize = 0;
        while k < self.accounts.len()
            invariant
                k <= self.accounts.len(),
                ledger == self.ledger(starts@, end_answers@),
                findings.len() == self.accounts.len(),
                end_answers.len() == self.accounts.len(),
                forall|j: int|
                    0 <= j < ledger.accounts.len() ==> (#[trigger] findings[j])
                        == ledger.account_ok(j),
                forall|contract: Seq<char>|
                    all_in_order(ledger.accounts, findings@, contract) == ledger.contract_ok(
                        contract,
                    ),
                contracts.wf(),
                cache.wf(),
                cache.limit() == limit,
                contracts@ == ledger.rows_after(rows, header@.height, header@.timestamp, k as nat),
                cache@ == ledger.cache_after(entries, limit, k as nat),
            decreases self.accounts.len() - k,
        {
            let account = &self.accounts[k];
            assert(ledger.accounts[k as int] == account@);
            if !findings[k] {
                contracts.mark_inconsistent(
                    account.contract_account_id.as_str(),
                    header.height,
                    header.timestamp,
                );
            }
            if contract_in_order(&self.accounts, &findings, account.contract_account_id.as_str()) {
                cache.set(account.duplicate(), end_answers[k]);
            }
            k = k + 1;
        }
        let mut kept: Vec<CandidateEvent> = Vec::new();
        let mut i: usize = 0;
        assert(kept.deep_view() =~= ledger.committed(0));
        while i < self.events.len()
            invariant
                i <= self.events.len(),
                ledger == self.ledger(starts@, end_answers@),
                findings.len() == self.accounts.len(),
                left.len() == self.events.len(),
                forall|j: int|
                    0 <= j < self.events.len() ==> (#[trigger] left.deep_view()[j])
                        == ledger.balance_after(j),
                forall|contract: Seq<char>|
                    all_in_order(ledger.accounts, findings@, contract) == ledger.contract_ok(
                        contract,
                    ),
                kept.deep_view() == ledger.committed(i as nat),
            decreases self.events.len() - i,
        {
            let event = &self.events[i];
            assert(ledger.events[i as int] == event@);
            if contract_in_order(&self.accounts, &findings, event.contract_id.as_str()) {
                let mut copy = event.duplicate();
                assert(left.deep_view()[i as int] == left[i as int]@);
                copy.absolute_amount = Some(left[i].clone());
                let ghost before = kept.deep_view();
                kept.push(copy);
                assert(kept.deep_view() =~= before.push(copy@));
            }
            i = i + 1;
        }
        Ok(kept)
    }
}


/// Every event that is kept is an event of the block, unchanged but for the
/// balance that it leaves, and belongs to a contract whose touched accounts
/// all end the block with the balance that the events lead to; its own
/// account is one of them.
pub proof fn lemma_kept_events_are_verified(ledger: Ledger, count: nat)
    requires
        ledger.wf(),
        count <= ledger.events.len(),
    ensures
        ledger.committed(count).len() <= count,
        forall|j: int|
            0 <= j < ledger.committed(count).len() ==> {
                let kept = #[trigger] ledger.committed(count)[j];
                let k = ledger.accounts.index_of(kept.key());
                &&& ledger.contract_ok(kept.contract_id)
                &&& 0 <= k < ledger.accounts.len()
                &&& ledger.accounts[k] == kept.key()
                &&& ledger.account_ok(k)
                &&& exists|i: int| 0 <= i < count && kept == #[trigger] ledger.settled_event(i)
            },
    decreases count,
{
    if count > 0 {
        lemma_kept_events_are_verified(ledger, (count - 1) as nat);
        lemma_touched_accounts(ledger.events);
        let front = ledger.committed((count - 1) as nat);
        let all = ledger.committed(count);
        let event = ledger.events[count - 1];
        assert forall|j: int| 0 <= j < all.len() implies {
            let kept = #[trigger] all[j];
            let k = ledger.accounts.index_of(kept.key());
            &&& ledger.contract_ok(kept.contract_id)
            &&& 0 <= k < ledger.accounts.len()
            &&& ledger.accounts[k] == kept.key()
            &&& ledger.account_ok(k)
            &&& exists|i: int| 0 <= i < count && kept == #[trigger] ledger.settled_event(i)
        } by {
            if j < front.len() {
                assert(all[j] == front[j]);
                let kept = front[j];
                let i = choose|i: int|
                    0 <= i < count - 1 && kept == #[trigger] ledger.settled_event(i);
                assert(0 <= i < count && kept == ledger.settled_event(i));
            } else {
                let kept = all[j];
                assert(kept.key() == event.key());
                assert(ledger.accounts.contains(event.key()));
                let k = ledger.accounts.index_of(kept.key());
                assert(ledger.accounts[k] == kept.key());
                assert(ledger.accounts[k].contract_account_id == kept.contract_id);
                assert(kept == ledger.settled_event(count - 1));
            }
        }
    }
}

/// No event is kept of a contract that has an account out of order.
pub proof fn lemma_dropped_contract_keeps_nothing(ledger: Ledger, contract: Seq<char>, count: nat)
    requires
        !ledger.contract_ok(contract),
    ensures
        forall|j: int|
            0 <= j < ledger.committed(count).len() ==> (#[trigger] ledger.committed(
                count,
            )[j]).contract_id != contract,
    decreases count,
{
    if count > 0 {
        lemma_dropped_contract_keeps_nothing(ledger, contract, (count - 1) as nat);
        let front = ledger.committed((count - 1) as nat);
        let all = ledger.committed(count);
        assert forall|j: int| 0 <= j < all.len() implies (#[trigger] all[j]).contract_id
            != contract by {
            if j < front.len() {
                assert(all[j] == front[j]);
            }
        }
    }
}

/// Judging accounts moves no row and takes no contract back from
/// inconsistent to consistent.
pub proof fn lemma_rows_after_keep(
    ledger: Ledger,
    rows: Seq<ContractView>,
    height: u64,
    timestamp: u64,
    count: nat,
    contract: Seq<char>,
)
    ensures
        place_of(ledger.rows_after(rows, height, timestamp, count), contract) == place_of(
            rows,
            contract,
        ),
        is_inconsistent(rows, contract) ==> is_inconsistent(
            ledger.rows_after(rows, height, timestamp, count),
            contract,
        ),
    decreases count,
{
    if count > 0 {
        lemma_rows_after_keep(ledger, rows, height, timestamp, (count - 1) as nat, contract);
        let front = ledger.rows_after(rows, height, timestamp, (count - 1) as nat);
        lemma_marked(
            front,
            ledger.accounts[count - 1].contract_account_id,
            height,
            timestamp,
            contract,
        );
    }
}

/// A mismatch is found out: where the events do not lead an account to its
/// balance after the block, the contract of the account, if it is known, is
/// inconsistent once the block is settled, and none of its events is kept.
pub proof fn lemma_mismatch_is_found(
    ledger: Ledger,
    rows: Seq<ContractView>,
    height: u64,
    timestamp: u64,
    k: int,
)
    requires
        0 <= k < ledger.accounts.len(),
        !ledger.account_ok(k),
        place_of(rows, ledger.accounts[k].contract_account_id) is Some,
    ensures
        is_inconsistent(
            ledger.rows_after(rows, height, timestamp, ledger.accounts.len()),
            ledger.accounts[k].contract_account_id,
        ),
        forall|j: int|
            0 <= j < ledger.committed(ledger.events.len()).len() ==> (#[trigger] ledger.committed(
                ledger.events.len(),
            )[j]).contract_id != ledger.accounts[k].contract_account_id,
{
    let contract = ledger.accounts[k].contract_account_id;
    assert(!ledger.contract_ok(contract));
    lemma_dropped_contract_keeps_nothing(ledger, contract, ledger.events.len());
    lemma_mismatch_marks(ledger, rows, height, timestamp, k, ledger.accounts.len());
}

proof fn lemma_mismatch_marks(
    ledger: Ledger,
    rows: Seq<ContractView>,
    height: u64,
    timestamp: u64,
    k: int,
    count: nat,
)
    requires
        0 <= k < count <= ledger.accounts.len(),
        !ledger.account_ok(k),
        place_of(rows, ledger.accounts[k].contract_account_id) is Some,
    ensures
        is_inconsistent(
            ledger.rows_after(rows, height, timestamp, count),
            ledger.accounts[k].contract_account_id,
        ),
    decreases count,
{
    let contract = ledger.accounts[k].contract_account_id;
    let front = ledger.rows_after(rows, height, timestamp, (count - 1) as nat);
    lemma_rows_after_keep(ledger, rows, height, timestamp, (count - 1) as nat, contract);
    if k == count - 1 {
        lemma_marked(front, contract, height, timestamp, contract);
    } else {
        lemma_mismatch_marks(ledger, rows, height, timestamp, k, (count - 1) as nat);
        if !ledger.account_ok(count - 1) {
            lemma_marked(
                front,
                ledger.accounts[count - 1].contract_account_id,
                height,
                timestamp,
                contract,
            );
        }
    }
}

/// A contract whose accounts are all in order is judged as before.
pub proof fn lemma_contract_in_order_is_untouched(
    ledger: Ledger,
    rows: Seq<ContractView>,
    height: u64,
    timestamp: u64,
    contract: Seq<char>,
    count: nat,
)
    requires
        ledger.contract_ok(contract),
        count <= ledger.accounts.len(),
    ensures
        is_inconsistent(ledger.rows_after(rows, height, timestamp, count), contract)
            == is_inconsistent(rows, contract),
    decreases count,
{
    if count > 0 {
        lemma_contract_in_order_is_untouched(
            ledger,
            rows,
            height,
            timestamp,
            contract,
            (count - 1) as nat,
        );
        let front = ledger.rows_after(rows, height, timestamp, (count - 1) as nat);
        if !ledger.account_ok(count - 1) {
            assert(ledger.accounts[count - 1].contract_account_id != contract);
            lemma_marked(
                front,
                ledger.accounts[count - 1].contract_account_id,
                height,
                timestamp,
                contract,
            );
        }
    }
}

/// What the cache is found to know depends on the balances that it keeps,
/// not on their order: two caches that keep the same balance under every
/// key give the same starting balances, so that the same answers lead to
/// the same books and the same events are kept.
pub proof fn lemma_decisions_follow_balances(
    accounts: Seq<AccountWithContractView>,
    first: Seq<BalanceEntry>,
    second: Seq<BalanceEntry>,
    known_first: Seq<Option<u128>>,
    known_second: Seq<Option<u128>>,
)
    requires
        forall|key: AccountWithContractView| balance_of(first, key) == balance_of(second, key),
        known_first.len() == accounts.len(),
        known_second.len() == accounts.len(),
        forall|k: int|
            0 <= k < accounts.len() ==> (#[trigger] known_first[k]) == balance_of(
                first,
                accounts[k],
            ),
        forall|k: int|
            0 <= k < accounts.len() ==> (#[trigger] known_second[k]) == balance_of(
                second,
                accounts[k],
            ),
    ensures
        known_first == known_second,
{
    assert(known_first =~= known_second);
}

} // verus!
