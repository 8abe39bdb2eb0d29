//! The way of the events of one shard from collection to storage: the
//! contracts are looked up and registered, the balances are asked for, the
//! block is settled, and what is kept is enumerated.

use crate::cache::{balance_of, FtBalanceCache};
use crate::coin::CandidateEvent;
use crate::contracts::ContractsHelper;
use crate::events::Event;
use crate::outcome::BlockHeader;
use crate::reconcile::{
    all_known, consistent_events, drop_inconsistent, known_balances, looked_up_by, merged_starts,
    register_new_contracts, rows_with_contracts, Reconciliation, SettleError,
};
use crate::sequencer::{enumerate_events, enumerated};
use vstd::prelude::*;

verus! {

/// Takes up the events of one shard: drops those of contracts that have
/// been found inconsistent, registers the contracts of the others, and
/// looks up in the cache the balance of every account that they touch.
pub fn prepare(
    events: &Vec<CandidateEvent>,
    standard: Event,
    cache: &mut FtBalanceCache,
    contracts: &mut ContractsHelper,
) -> (out: Reconciliation)
    requires
        old(cache).wf(),
        old(contracts).wf(),
    ensures
        out.wf(),
        out.events() == consistent_events(events.deep_view(), old(contracts)@),
        forall|k: int|
            0 <= k < out.accounts().len() ==> (#[trigger] out.known()[k]) == balance_of(
                old(cache)@,
                out.accounts()[k],
            ),
        final(contracts).wf(),
        final(contracts)@ == rows_with_contracts(
            old(contracts)@,
            out.events(),
            standard.standard(),
            out.events().len(),
        ),
        final(cache).wf(),
        final(cache).limit() == old(cache).limit(),
        final(cache)@ == looked_up_by(old(cache)@, out.accounts()),
{
    let left = drop_inconsistent(events, contracts);
    register_new_contracts(&left, contracts, standard.name());
    Reconciliation::begin(left, cache)
}

/// Settles the block as `Reconciliation::settle` does and gives every event
/// that is kept its place. An answer of `None` says that the archival node
/// knows no such balance; with one such answer nothing is settled.
pub fn finish(
    run: Reconciliation,
    start_answers: &Vec<Option<u128>>,
    end_answers: &Vec<Option<u128>>,
    cache: &mut FtBalanceCache,
    contracts: &mut ContractsHelper,
    header: &BlockHeader,
) -> (out: Result<Vec<CandidateEvent>, SettleError>)
    requires
        run.wf(),
        old(cache).wf(),
        old(contracts).wf(),
    ensures
        final(cache).wf(),
        final(cache).limit() == old(cache).limit(),
        final(contracts).wf(),
        match (all_known(start_answers@), all_known(end_answers@)) {
            (Some(start_balances), Some(end_balances)) => match merged_starts(
                run.known(),
                start_balances,
            ) {
                None => {
                    &&& out == Err::<Vec<CandidateEvent>, _>(SettleError::StartAnswers)
                    &&& final(cache)@ == old(cache)@
                    &&& final(contracts)@ == old(contracts)@
                },
                Some(starts) => if end_balances.len() != run.accounts().len() {
                    &&& out == Err::<Vec<CandidateEvent>, _>(SettleError::EndAnswers)
                    &&& final(cache)@ == old(cache)@
                    &&& final(contracts)@ == old(contracts)@
                } else {
                    let ledger = run.ledger(starts, end_balances);
                    &&& out matches Ok(kept)
                    &&& kept.deep_view() == enumerated(ledger.committed(ledger.events.len()))
                    &&& final(contracts)@ == ledger.rows_after(
                        old(contracts)@,
                        header@.height,
                        header@.timestamp,
                        ledger.accounts.len(),
                    )
                    &&& final(cache)@ == ledger.cache_after(
                        old(cache)@,
                        old(cache).limit(),
                        ledger.accounts.len(),
                    )
                },
            },
            _ => {
                &&& out == Err::<Vec<CandidateEvent>, _>(SettleError::MissingBalance)
                &&& final(cache)@ == old(cache)@
                &&& final(contracts)@ == old(contracts)@
            },
        },
{
    let start_balances = match known_balances(start_answers) {
        Some(balances) => balances,
        None => {
            return Err(SettleError::MissingBalance);
        },
    };
    let end_balances = match known_balances(end_answers) {
        Some(balances) => balances,
        None => {
            return Err(SettleError::MissingBalance);
        },
    };
    match run.settle(&start_balances, &end_balances, cache, contracts, header) {
        Ok(kept) => {
            let mut kept = kept;
            enumerate_events(&mut kept);
            Ok(kept)
        },
        Err(e) => Err(e),
    }
}

} // verus!
