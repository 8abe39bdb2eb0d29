//! What is known of each token contract: when it was first seen, and whether
//! its events have been found inconsistent with its balances.

use crate::text::same_text;
use vstd::prelude::*;

verus! {

/// One row of the contract table.
#[derive(Debug, Clone, PartialEq, Eq)]
pub struct Contract {
    pub contract_account_id: String,
    pub standard: String,
    pub first_event_at_timestamp: u64,
    pub first_event_at_block_height: u64,
    pub inconsistency_found_at_timestamp: Option<u64>,
    pub inconsistency_found_at_block_height: Option<u64>,
    /// Whether storage has yet to learn of this row; not stored itself.
    pub should_add_to_db: bool,
}

pub struct ContractView {
    pub contract_account_id: Seq<char>,
    pub standard: Seq<char>,
    pub first_event_at_timestamp: u64,
    pub first_event_at_block_height: u64,
    pub inconsistency_found_at_timestamp: Option<u64>,
    pub inconsistency_found_at_block_height: Option<u64>,
    pub should_add_to_db: bool,
}

impl DeepView for Contract {
    type V = ContractView;

    open spec fn deep_view(&self) -> ContractView {
        ContractView {
            contract_account_id: self.contract_account_id@,
            standard: self.standard@,
            first_event_at_timestamp: self.first_event_at_timestamp,
            first_event_at_block_height: self.first_event_at_block_height,
            inconsistency_found_at_timestamp: self.inconsistency_found_at_timestamp,
            inconsistency_found_at_block_height: self.inconsistency_found_at_block_height,
            should_add_to_db: self.should_add_to_db,
        }
    }
}

impl View for Contract {
    type V = ContractView;

    open spec fn view(&self) -> ContractView {
        self.deep_view()
    }
}

impl ContractView {
    /// Whether the contract has been found inconsistent.
    pub open spec fn inconsistent(self) -> bool {
        self.inconsistency_found_at_block_height is Some
    }

    /// A contract seen for the first time.
    pub open spec fn fresh(
        contract_id: Seq<char>,
        standard: Seq<char>,
        height: u64,
        timestamp: u64,
    ) -> ContractView {
        ContractView {
            contract_account_id: contract_id,
            standard,
            first_event_at_timestamp: timestamp,
            first_event_at_block_height: height,
            inconsistency_found_at_timestamp: None,
            inconsistency_found_at_block_height: None,
            should_add_to_db: true,
        }
    }

    /// The contract once it is found inconsistent at the given block. A
    /// contract that was inconsistent already stays as it is.
    pub open spec fn flagged(self, height: u64, timestamp: u64) -> ContractView {
        if self.inconsistent() {
            self
        } else {
            ContractView {
                inconsistency_found_at_timestamp: Some(timestamp),
                inconsistency_found_at_block_height: Some(height),
                should_add_to_db: true,
                ..self
            }
        }
    }
}

impl Contract {
    /// The name of the table that holds the rows.
    pub fn name() -> (out: String)
        ensures
            out@ == "contracts"@,
    {
        "contracts".to_owned()
    }

    /// A copy of the row.
    pub fn duplicate(&self) -> (out: Contract)
        ensures
            out@ == self@,
    {
        Contract {
            contract_account_id: self.contract_account_id.clone(),
            standard: self.standard.clone(),
            first_event_at_timestamp: self.first_event_at_timestamp,
            first_event_at_block_height: self.first_event_at_block_height,
            inconsistency_found_at_timestamp: self.inconsistency_found_at_timestamp,
            inconsistency_found_at_block_height: self.inconsistency_found_at_block_height,
            should_add_to_db: self.should_add_to_db,
        }
    }
}

/// The place of the contract `id` among the rows.
pub open spec fn place_of(rows: Seq<ContractView>, id: Seq<char>) -> Option<int>
    decreases rows.len(),
{
    if rows.len() == 0 {
        None
    } else if rows.last().contract_account_id == id {
        match place_of(rows.drop_last(), id) {
            Some(i) => Some(i),
            None => Some(rows.len() - 1),
        }
    } else {
        place_of(rows.drop_last(), id)
    }
}

/// Whether the rows hold the contract `id` and hold it as inconsistent.
pub open spec fn is_inconsistent(rows: Seq<ContractView>, id: Seq<char>) -> bool {
    match place_of(rows, id) {
        Some(i) => rows[i].inconsistent(),
        None => false,
    }
}

/// The rows once the contract `id` is registered: a contract that is there
/// already stays as it is, a new one comes last.
pub open spec fn registered(
    rows: Seq<ContractView>,
    id: Seq<char>,
    standard: Seq<char>,
    height: u64,
    timestamp: u64,
) -> Seq<ContractView> {
    match place_of(rows, id) {
        Some(_) => rows,
        None => rows.push(ContractView::fresh(id, standard, height, timestamp)),
    }
}

/// The rows once the contract `id` is found inconsistent: nothing changes
/// for a contract that is unknown.
pub open spec fn marked(rows: Seq<ContractView>, id: Seq<char>, height: u64, timestamp: u64) -> Seq<
    ContractView,
> {
    match place_of(rows, id) {
        Some(i) => rows.update(i, rows[i].flagged(height, timestamp)),
        None => rows,
    }
}

/// No two rows are of one contract.
pub open spec fn distinct_ids(rows: Seq<ContractView>) -> bool {
    forall|i: int, j: int|
        0 <= i < rows.len() && 0 <= j < rows.len() && i != j ==> (#[trigger] rows[i]).contract_account_id
            != (#[trigger] rows[j]).contract_account_id
}

/// Where `place_of` finds a row, it is the first one of the contract; where
/// it finds none, there is none.
pub proof fn lemma_place_of(rows: Seq<ContractView>, id: Seq<char>)
    ensures
        match place_of(rows, id) {
            Some(i) => 0 <= i < rows.len() && rows[i].contract_account_id == id && forall|j: int|
                0 <= j < i ==> (#[trigger] rows[j]).contract_account_id != id,
            None => forall|j: int|
                0 <= j < rows.len() ==> (#[trigger] rows[j]).contract_account_id != id,
        },
    decreases rows.len(),
{
    if rows.len() > 0 {
        let front = rows.drop_last();
        lemma_place_of(front, id);
        match place_of(front, id) {
            Some(i) => {
                assert(rows[i] == front[i]);
                assert forall|j: int| 0 <= j < i implies (#[trigger] rows[j]).contract_account_id
                    != id by {
                    assert(rows[j] == front[j]);
                }
            },
            None => {
                assert forall|j: int| 0 <= j < front.len() implies (
                #[trigger] rows[j]).contract_account_id != id by {
                    assert(rows[j] == front[j]);
                }
            },
        }
    }
}

/// A row at place `i` whose contract stands nowhere before it is the one found.
pub proof fn lemma_place_is(rows: Seq<ContractView>, id: Seq<char>, i: int)
    requires
        0 <= i < rows.len(),
        rows[i].contract_account_id == id,
        forall|j: int| 0 <= j < i ==> (#[trigger] rows[j]).contract_account_id != id,
    ensures
        place_of(rows, id) == Some(i),
{
    lemma_place_of(rows, id);
}


/// Marking a contract moves no row, and no contract goes back from
/// inconsistent to consistent; the marked contract, where it is known, is
/// inconsistent from then on.
pub proof fn lemma_marked(
    rows: Seq<ContractView>,
    id: Seq<char>,
    height: u64,
    timestamp: u64,
    other: Seq<char>,
)
    ensures
        place_of(marked(rows, id, height, timestamp), other) == place_of(rows, other),
        is_inconsistent(rows, other) ==> is_inconsistent(
            marked(rows, id, height, timestamp),
            other,
        ),
        place_of(rows, id) is Some ==> is_inconsistent(marked(rows, id, height, timestamp), id),
        other != id ==> is_inconsistent(marked(rows, id, height, timestamp), other)
            == is_inconsistent(rows, other),
{
    let next = marked(rows, id, height, timestamp);
    lemma_place_of(rows, id);
    lemma_place_of(rows, other);
    match place_of(rows, id) {
        Some(i) => {
            assert forall|j: int| 0 <= j < rows.len() implies (#[trigger] next[j]).contract_account_id
                == rows[j].contract_account_id by {}
            assert forall|j: int| 0 <= j < i implies (#[trigger] next[j]).contract_account_id
                != id by {
                assert(rows[j].contract_account_id != id);
            }
            lemma_place_is(next, id, i);
            match place_of(rows, other) {
                Some(p) => {
                    assert forall|j: int| 0 <= j < p implies (#[trigger] next[j]).contract_account_id
                        != other by {
                        assert(rows[j].contract_account_id != other);
                    }
                    lemma_place_is(next, other, p);
                },
                None => {
                    lemma_place_of(next, other);
                    if place_of(next, other) is Some {
                        let q = place_of(next, other)->0;
                        assert(rows[q].contract_account_id != other);
                    }
                },
            }
        },
        None => {},
    }
}

/// Registering a contract moves no row and changes no finding: a contract
/// that was inconsistent stays so, and a new one starts consistent.
pub proof fn lemma_registered(
    rows: Seq<ContractView>,
    id: Seq<char>,
    standard: Seq<char>,
    height: u64,
    timestamp: u64,
    other: Seq<char>,
)
    ensures
        is_inconsistent(registered(rows, id, standard, height, timestamp), other)
            == is_inconsistent(rows, other),
        place_of(registered(rows, id, standard, height, timestamp), id) is Some,
        registered(registered(rows, id, standard, height, timestamp), id, standard, height, timestamp)
            == registered(rows, id, standard, height, timestamp),
{
    let next = registered(rows, id, standard, height, timestamp);
    lemma_place_of(rows, id);
    lemma_place_of(rows, other);
    if place_of(rows, id) is None {
        assert(next.drop_last() =~= rows);
        lemma_place_is(next, id, rows.len() as int);
        if other != id {
            match place_of(rows, other) {
                Some(p) => {
                    assert(next[p] == rows[p]);
                    assert forall|j: int| 0 <= j < p implies (#[trigger] next[j]).contract_account_id
                        != other by {
                        assert(next[j] == rows[j]);
                    }
                    lemma_place_is(next, other, p);
                },
                None => {
                    lemma_place_of(next, other);
                    if place_of(next, other) is Some {
                        let q = place_of(next, other)->0;
                        if q < rows.len() {
                            assert(next[q] == rows[q]);
                        }
                    }
                },
            }
        }
    }
}

/// The rows of `rows` that storage has yet to learn of.
pub open spec fn pending_rows(rows: Seq<ContractView>) -> Seq<ContractView> {
    rows.filter(|c: ContractView| c.should_add_to_db)
}

/// The rows with every one marked as known to storage.
pub open spec fn settled_rows(rows: Seq<ContractView>) -> Seq<ContractView> {
    Seq::new(rows.len(), |i: int| ContractView { should_add_to_db: false, ..rows[i] })
}

/// Handing the rows to storage moves no row and changes no finding.
pub proof fn lemma_settled_rows(rows: Seq<ContractView>, id: Seq<char>)
    ensures
        place_of(settled_rows(rows), id) == place_of(rows, id),
        is_inconsistent(settled_rows(rows), id) == is_inconsistent(rows, id),
{
    let next = settled_rows(rows);
    lemma_place_of(rows, id);
    lemma_place_of(next, id);
    match place_of(rows, id) {
        Some(p) => {
            assert(next[p].contract_account_id == id);
            assert forall|j: int| 0 <= j < p implies (#[trigger] next[j]).contract_account_id
                != id by {
                assert(rows[j].contract_account_id != id);
            }
            lemma_place_is(next, id, p);
        },
        None => {
            if place_of(next, id) is Some {
                let q = place_of(next, id)->0;
                assert(rows[q].contract_account_id != id);
            }
        },
    }
}

/// The rows that a run starts with: of the stored rows, those first seen at
/// or before `start_height`, one per contract, none waiting for storage.
pub open spec fn restored_rows(stored: Seq<ContractView>, start_height: u64) -> Seq<ContractView>
    decreases stored.len(),
{
    if stored.len() == 0 {
        Seq::empty()
    } else {
        let front = restored_rows(stored.drop_last(), start_height);
        let row = stored.last();
        if row.first_event_at_block_height <= start_height && place_of(
            front,
            row.contract_account_id,
        ) is None {
            front.push(ContractView { should_add_to_db: false, ..row })
        } else {
            front
        }
    }
}

/// The memory of the contracts met so far.
pub struct ContractsHelper {
    rows: Vec<Contract>,
}

impl View for ContractsHelper {
    type V = Seq<ContractView>;

    closed spec fn view(&self) -> Seq<ContractView> {
        self.rows.deep_view()
    }
}

impl ContractsHelper {
    /// What holds of every memory: no contract has two rows.
    pub open spec fn wf(&self) -> bool {
        distinct_ids(self@)
    }

    /// A memory that knows no contract.
    pub fn new() -> (out: ContractsHelper)
        ensures
            out.wf(),
            out@ == Seq::<ContractView>::empty(),
    {
        let out = ContractsHelper { rows: Vec::new() };
        assert(out@ =~= Seq::<ContractView>::empty());
        out
    }

    /// The place of the contract `id`.
    fn find(&self, id: &str) -> (out: Option<usize>)
        ensures
            match out {
                Some(i) => place_of(self@, id@) == Some(i as int) && i < self.rows.len(),
                None => place_of(self@, id@) is None,
            },
    {
        let mut i: usize = 0;
        while i < self.rows.len()
            invariant
                i <= self.rows.len(),
                forall|j: int| 0 <= j < i ==> (#[trigger] self@[j]).contract_account_id != id@,
            decreases self.rows.len() - i,
        {
            if same_text(self.rows[i].contract_account_id.as_str(), id) {
                proof {
                    lemma_place_is(self@, id@, i as int);
                }
                return Some(i);
            }
            i = i + 1;
        }
        proof {
            lemma_place_of(self@, id@);
        }
        None
    }

    /// The memory that a run starts with, made from the stored rows.
    pub fn restore(stored: &Vec<Contract>, start_height: u64) -> (out: ContractsHelper)
        ensures
            out.wf(),
            out@ == restored_rows(stored.deep_view(), start_height),
    {
        let mut out = ContractsHelper::new();
        let mut i: usize = 0;
        while i < stored.len()
            invariant
                i <= stored.len(),
                out.wf(),
                out@ == restored_rows(stored.deep_view().take(i as int), start_height),
            decreases stored.len() - i,
        {
            proof {
                assert(stored.deep_view().take(i + 1).drop_last() =~= stored.deep_view().take(
                    i as int,
                ));
                lemma_place_of(out@, stored[i as int].contract_account_id@);
            }
            let row = &stored[i];
            if row.first_event_at_block_height <= start_height {
                if out.find(row.contract_account_id.as_str()).is_none() {
                    let mut copy = row.duplicate();
                    copy.should_add_to_db = false;
                    let ghost before = out@;
                    out.rows.push(copy);
                    assert(out@ =~= before.push(copy@));
                }
            }
            i = i + 1;
        }
        assert(stored.deep_view().take(i as int) =~= stored.deep_view());
        out
    }

    /// Whether the contract has been found inconsistent. Events of such a
    /// contract are dropped from then on.
    pub fn is_inconsistent(&self, contract_id: &str) -> (b: bool)
        ensures
            b == is_inconsistent(self@, contract_id@),
    {
        match self.find(contract_id) {
            Some(i) => self.rows[i].inconsistency_found_at_block_height.is_some(),
            None => false,
        }
    }

    /// Whether the contract has a row.
    pub fn is_known(&self, contract_id: &str) -> (b: bool)
        ensures
            b == place_of(self@, contract_id@) is Some,
    {
        self.find(contract_id).is_some()
    }

    /// Gives the contract a row, unless it has one.
    pub fn register_new(&mut self, contract_id: &str, standard: &str, height: u64, timestamp: u64)
        requires
            old(self).wf(),
        ensures
            final(self).wf(),
            final(self)@ == registered(old(self)@, contract_id@, standard@, height, timestamp),
    {
        if self.find(contract_id).is_none() {
            let row = Contract {
                contract_account_id: contract_id.to_owned(),
                standard: standard.to_owned(),
                first_event_at_timestamp: timestamp,
                first_event_at_block_height: height,
                inconsistency_found_at_timestamp: None,
                inconsistency_found_at_block_height: None,
                should_add_to_db: true,
            };
            proof {
                lemma_place_of(self@, contract_id@);
            }
            let ghost before = self@;
            self.rows.push(row);
            assert(self@ =~= before.push(row@));
        }
    }

    /// Records that the contract was found inconsistent at the given block.
    /// The first finding stays; an unknown contract is left unknown.
    pub fn mark_inconsistent(&mut self, contract_id: &str, height: u64, timestamp: u64)
        requires
            old(self).wf(),
        ensures
            final(self).wf(),
            final(self)@ == marked(old(self)@, contract_id@, height, timestamp),
    {
        match self.find(contract_id) {
            Some(i) => {
                if self.rows[i].inconsistency_found_at_block_height.is_none() {
                    let mut row = self.rows[i].duplicate();
                    row.inconsistency_found_at_timestamp = Some(timestamp);
                    row.inconsistency_found_at_block_height = Some(height);
                    row.should_add_to_db = true;
                    let ghost before = self@;
                    self.rows.set(i, row);
                    assert(self@ =~= before.update(i as int, row@));
                } else {
                    assert(self@ =~= self@.update(i as int, self@[i as int]));
                }
            },
            None => {},
        }
    }

    /// Hands out a copy of every row that storage has yet to learn of, and
    /// takes them as stored from then on.
    pub fn take_pending(&mut self) -> (out: Vec<Contract>)
        requires
            old(self).wf(),
        ensures
            final(self).wf(),
            out.deep_view() == pending_rows(old(self)@),
            final(self)@ == settled_rows(old(self)@),
    {
        let mut out: Vec<Contract> = Vec::new();
        let mut i: usize = 0;
        let ghost start = self@;
        while i < self.rows.len()
            invariant
                i <= self.rows.len(),
                self@.len() == start.len(),
                forall|j: int| 0 <= j < i ==> (#[trigger] self@[j]) == settled_rows(start)[j],
                forall|j: int| i <= j < start.len() ==> (#[trigger] self@[j]) == start[j],
                out.deep_view() == pending_rows(start.take(i as int)),
            decreases self.rows.len() - i,
        {
            proof {
                let shorter = start.take(i as int);
                let longer = start.take(i + 1);
                assert(longer.drop_last() =~= shorter);
                assert(longer =~= shorter.push(start[i as int]));
                reveal(Seq::filter);
            }
            let mut row = self.rows[i].duplicate();
            let ghost before = out.deep_view();
            assert(self@[i as int] == start[i as int]);
            assert(row@ == start[i as int]);
            if row.should_add_to_db {
                let copy = self.rows[i].duplicate();
                out.push(copy);
                assert(out.deep_view() =~= before.push(copy@));
                row.should_add_to_db = false;
                let ghost rows_before = self@;
                self.rows.set(i, row);
                assert(self@ =~= rows_before.update(i as int, row@));
            }
            i = i + 1;
        }
        proof {
            assert(start.take(i as int) =~= start);
            assert(self@ =~= settled_rows(start));
            assert forall|a: int, b: int|
                0 <= a < self@.len() && 0 <= b < self@.len() && a != b implies (
            #[trigger] self@[a]).contract_account_id != (#[trigger] self@[b]).contract_account_id by {
                assert(start[a].contract_account_id != start[b].contract_account_id);
            }
        }
        out
    }
}

} // verus!
