//! The balance changes that reported fungible-token events stand for.

use crate::amount::Amount;
use crate::coin::{
    build_event, candidate, context_of, escape_memo, escaped_memo, event_context, transfer_pair,
    CandidateEvent, CandidateEventView, Cause, EventContext, EventContextView,
};
use crate::event_types::{
    FtBurnDataView, FtMintDataView, FtTransferDataView, Nep141EventKind, Nep141EventKindView,
};
use crate::events::{
    collected, coin_events_count, lemma_collected_gap_free, FtEvent, FtEventView,
};
use crate::outcome::{BlockHeader, BlockHeaderView, RawOutcome, RawOutcomeView};
use vstd::prelude::*;

verus! {

/// The change that a mint record stands for: the owner gains the amount.
pub open spec fn mint_event(record: FtMintDataView, context: EventContextView) -> CandidateEventView {
    candidate(
        context,
        record.owner_id,
        None,
        record.amount as int,
        Cause::Mint,
        escaped_memo(record.memo),
    )
}

/// The change that a burn record stands for: the owner loses the amount.
pub open spec fn burn_event(record: FtBurnDataView, context: EventContextView) -> CandidateEventView {
    candidate(
        context,
        record.owner_id,
        None,
        -(record.amount as int),
        Cause::Burn,
        escaped_memo(record.memo),
    )
}

/// The two changes that a transfer record stands for: the old owner loses
/// the amount, then the new owner gains it.
pub open spec fn transfer_events(record: FtTransferDataView, context: EventContextView) -> Seq<
    CandidateEventView,
> {
    transfer_pair(
        context,
        record.old_owner_id,
        record.new_owner_id,
        record.amount as int,
        escaped_memo(record.memo),
    )
}

/// The changes that an event stands for, record by record.
pub open spec fn events_of_kind(kind: Nep141EventKindView, context: EventContextView) -> Seq<
    CandidateEventView,
> {
    match kind {
        Nep141EventKindView::FtMint(v) => Seq::new(v.len(), |i: int| mint_event(v[i], context)),
        Nep141EventKindView::FtTransfer(v) => Seq::new(
            2 * v.len(),
            |i: int| transfer_events(v[i / 2], context)[i % 2],
        ),
        Nep141EventKindView::FtBurn(v) => Seq::new(v.len(), |i: int| burn_event(v[i], context)),
    }
}

/// The events with indices counted up from `start`.
pub open spec fn indexed_from(events: Seq<CandidateEventView>, start: int) -> Seq<
    CandidateEventView,
> {
    Seq::new(
        events.len(),
        |i: int| CandidateEventView { event_index: Some((start + i) as usize), ..events[i] },
    )
}

/// An event stands for as many changes as `coin_events_count` counts.
pub proof fn lemma_events_of_kind_count(kind: Nep141EventKindView, context: EventContextView)
    ensures
        events_of_kind(kind, context).len() == coin_events_count(kind),
{
}

/// Appends `event` with the next index.
fn push_indexed(out: &mut Vec<CandidateEvent>, event: CandidateEvent, start: usize)
    requires
        start + old(out).len() <= usize::MAX,
        event@.event_index is None,
    ensures
        final(out).len() == old(out).len() + 1,
        final(out).deep_view() == old(out).deep_view().push(
            CandidateEventView { event_index: Some((start + old(out).len()) as usize), ..event@ },
        ),
{
    let mut event = event;
    let ghost before = out.deep_view();
    event.event_index = Some(start + out.len());
    out.push(event);
    assert(out.deep_view() =~= before.push(event@));
}

/// Builds the changes that an event stands for, indexed from the event's
/// starting index.
pub fn build_coin_events(event: &FtEvent, context: &EventContext) -> (out: Vec<CandidateEvent>)
    requires
        event.starting_index + coin_events_count(event.events.event_kind.deep_view())
            <= usize::MAX,
    ensures
        out.deep_view() == indexed_from(
            events_of_kind(event.events.event_kind.deep_view(), context@),
            event.starting_index as int,
        ),
{
    let mut out: Vec<CandidateEvent> = Vec::new();
    let start = event.starting_index;
    let ghost kind = event.events.event_kind.deep_view();
    let ghost plain = events_of_kind(kind, context@);
    let ghost goal = indexed_from(plain, start as int);
    match &event.events.event_kind {
        Nep141EventKind::FtMint(v) => {
            let mut i: usize = 0;
            assert(out.deep_view() =~= goal.take(0));
            while i < v.len()
                invariant
                    i <= v.len(),
                    v.deep_view() == kind->FtMint_0,
                    kind is FtMint,
                    plain == events_of_kind(kind, context@),
                    goal == indexed_from(plain, start as int),
                    start + v.len() <= usize::MAX,
                    out.len() == i,
                    out.deep_view() == goal.take(i as int),
                decreases v.len() - i,
            {
                let r = &v[i];
                assert(v.deep_view()[i as int] == r.deep_view());
                let e = build_event(
                    context,
                    &r.owner_id,
                    None,
                    Amount::from_u128(r.amount),
                    Cause::Mint,
                    &escape_memo(&r.memo),
                );
                push_indexed(&mut out, e, start);
                assert(out.deep_view() =~= goal.take(i + 1));
                i = i + 1;
            }
            assert(goal.take(i as int) =~= goal);
        },
        Nep141EventKind::FtBurn(v) => {
            let mut i: usize = 0;
            assert(out.deep_view() =~= goal.take(0));
            while i < v.len()
                invariant
                    i <= v.len(),
                    v.deep_view() == kind->FtBurn_0,
                    kind is FtBurn,
                    plain == events_of_kind(kind, context@),
                    goal == indexed_from(plain, start as int),
                    start + v.len() <= usize::MAX,
                    out.len() == i,
                    out.deep_view() == goal.take(i as int),
                decreases v.len() - i,
            {
                let r = &v[i];
                assert(v.deep_view()[i as int] == r.deep_view());
                let e = build_event(
                    context,
                    &r.owner_id,
                    None,
                    Amount::from_u128(r.amount).negated(),
                    Cause::Burn,
                    &escape_memo(&r.memo),
                );
                push_indexed(&mut out, e, start);
                assert(out.deep_view() =~= goal.take(i + 1));
                i = i + 1;
            }
            assert(goal.take(i as int) =~= goal);
        },
        Nep141EventKind::FtTransfer(v) => {
            let mut i: usize = 0;
            assert(out.deep_view() =~= goal.take(0));
            while i < v.len()
                invariant
                    i <= v.len(),
                    v.deep_view() == kind->FtTransfer_0,
                    kind is FtTransfer,
                    plain == events_of_kind(kind, context@),
                    goal == indexed_from(plain, start as int),
                    start + 2 * v.len() <= usize::MAX,
                    out.len() == 2 * i,
                    out.deep_view() == goal.take(2 * i),
                decreases v.len() - i,
            {
                let r = &v[i];
                assert(v.deep_view()[i as int] == r.deep_view());
                let memo = escape_memo(&r.memo);
                let debit = build_event(
                    context,
                    &r.old_owner_id,
                    Some(&r.new_owner_id),
                    Amount::from_u128(r.amount).negated(),
                    Cause::Transfer,
                    &memo,
                );
                let credit = build_event(
                    context,
                    &r.new_owner_id,
                    Some(&r.old_owner_id),
                    Amount::from_u128(r.amount),
                    Cause::Transfer,
                    &memo,
                );
                push_indexed(&mut out, debit, start);
                push_indexed(&mut out, credit, start);
                proof {
                    let a = 2 * i as int;
                    assert(a / 2 == i && a % 2 == 0);
                    assert((a + 1) / 2 == i && (a + 1) % 2 == 1);
                    assert(out.deep_view() =~= goal.take(2 * (i + 1)));
                }
                i = i + 1;
            }
            assert(goal.take(2 * i) =~= goal);
        },
    }
    out
}


/// The changes that the first `count` collected events stand for, event by
/// event, each indexed from its event's starting index.
pub open spec fn events_of_collected(
    ft: Seq<FtEventView>,
    outcomes: Seq<RawOutcomeView>,
    header: BlockHeaderView,
    shard_id: u64,
    count: nat,
) -> Seq<CandidateEventView>
    decreases count,
{
    if count == 0 {
        Seq::empty()
    } else {
        let event = ft[count - 1];
        events_of_collected(ft, outcomes, header, shard_id, (count - 1) as nat) + indexed_from(
            events_of_kind(
                event.events.event_kind,
                context_of(outcomes[event.outcome], header, shard_id),
            ),
            event.starting_index,
        )
    }
}

/// Builds the changes that the collected events of one shard stand for.
pub fn collect_coin_events(
    ft: &Vec<FtEvent>,
    outcomes: &Vec<RawOutcome>,
    header: &BlockHeader,
    shard_id: u64,
) -> (out: Vec<CandidateEvent>)
    requires
        forall|k: int|
            0 <= k < ft.len() ==> (#[trigger] ft.deep_view()[k]).placed(outcomes.len() as nat),
    ensures
        out.deep_view() == events_of_collected(
            ft.deep_view(),
            outcomes.deep_view(),
            header@,
            shard_id,
            ft.len() as nat,
        ),
{
    let mut out: Vec<CandidateEvent> = Vec::new();
    let mut i: usize = 0;
    assert(out.deep_view() =~= Seq::<CandidateEventView>::empty());
    while i < ft.len()
        invariant
            i <= ft.len(),
            forall|k: int|
                0 <= k < ft.len() ==> (#[trigger] ft.deep_view()[k]).placed(outcomes.len() as nat),
            out.deep_view() == events_of_collected(
                ft.deep_view(),
                outcomes.deep_view(),
                header@,
                shard_id,
                i as nat,
            ),
        decreases ft.len() - i,
    {
        let event = &ft[i];
        assert(ft.deep_view()[i as int] == event.deep_view());
        assert(ft.deep_view()[i as int].placed(outcomes.len() as nat));
        let outcome = &outcomes[event.outcome];
        assert(outcomes.deep_view()[event.outcome as int] == outcome@);
        let context = event_context(outcome, header, shard_id);
        let mut events = build_coin_events(event, &context);
        let ghost before = out.deep_view();
        let ghost added = events.deep_view();
        out.append(&mut events);
        assert(out.deep_view() =~= before + added);
        i = i + 1;
    }
    out
}

/// Events indexed from the length of what stands before them carry on its
/// numbering.
proof fn lemma_append_indexed(
    front: Seq<CandidateEventView>,
    plain: Seq<CandidateEventView>,
    start: int,
)
    requires
        front.len() == start,
        start + plain.len() <= usize::MAX,
        forall|i: int| 0 <= i < front.len() ==> (#[trigger] front[i]).event_index == Some(i as usize),
    ensures
        (front + indexed_from(plain, start)).len() == start + plain.len(),
        forall|i: int|
            0 <= i < start + plain.len() ==> (#[trigger] (front + indexed_from(
                plain,
                start,
            ))[i]).event_index == Some(i as usize),
{
    let all = front + indexed_from(plain, start);
    assert forall|i: int| 0 <= i < start + plain.len() implies (#[trigger] all[i]).event_index
        == Some(i as usize) by {
        if i < start {
            assert(all[i] == front[i]);
        } else {
            assert(all[i] == indexed_from(plain, start)[i - start]);
        }
    }
}

/// Where the event at place `k` ends, the next one starts, or the index
/// of the standard stands.
proof fn lemma_next_start(outcomes: Seq<RawOutcomeView>, k: int)
    requires
        0 <= k < collected(outcomes, outcomes.len()).ft.len(),
    ensures
        ({
            let state = collected(outcomes, outcomes.len());
            &&& state.ft[k].starting_index + coin_events_count(state.ft[k].events.event_kind)
                == (if k + 1 < state.ft.len() {
                state.ft[k + 1].starting_index
            } else {
                state.ft_index as int
            })
            &&& state.ft[0].starting_index == 0
        }),
{
    lemma_collected_gap_free(outcomes, outcomes.len());
}

proof fn lemma_no_event_no_index(outcomes: Seq<RawOutcomeView>)
    requires
        collected(outcomes, outcomes.len()).ft.len() == 0,
    ensures
        collected(outcomes, outcomes.len()).ft_index == 0,
{
    lemma_collected_gap_free(outcomes, outcomes.len());
}

proof fn lemma_collected_events_upto(
    outcomes: Seq<RawOutcomeView>,
    header: BlockHeaderView,
    shard_id: u64,
    count: nat,
)
    requires
        collected(outcomes, outcomes.len()).fits(),
        count <= collected(outcomes, outcomes.len()).ft.len(),
    ensures
        ({
            let state = collected(outcomes, outcomes.len());
            let events = events_of_collected(state.ft, outcomes, header, shard_id, count);
            &&& events.len() == (if count < state.ft.len() {
                state.ft[count as int].starting_index
            } else {
                state.ft_index as int
            })
            &&& forall|i: int|
                0 <= i < events.len() ==> (#[trigger] events[i]).event_index == Some(i as usize)
        }),
    decreases count,
{
    let state = collected(outcomes, outcomes.len());
    if count == 0 {
        if state.ft.len() > 0 {
            lemma_next_start(outcomes, 0);
        } else {
            lemma_no_event_no_index(outcomes);
        }
    } else {
        lemma_collected_events_upto(outcomes, header, shard_id, (count - 1) as nat);
        lemma_next_start(outcomes, count - 1);
        let event = state.ft[count - 1];
        let front = events_of_collected(state.ft, outcomes, header, shard_id, (count - 1) as nat);
        let plain = events_of_kind(
            event.events.event_kind,
            context_of(outcomes[event.outcome], header, shard_id),
        );
        lemma_events_of_kind_count(
            event.events.event_kind,
            context_of(outcomes[event.outcome], header, shard_id),
        );
        if count < state.ft.len() {
            lemma_start_fits(outcomes, count as int);
        }
        lemma_append_indexed(front, plain, event.starting_index);
    }
}

/// Every starting index is within the index of the standard.
proof fn lemma_start_fits(outcomes: Seq<RawOutcomeView>, k: int)
    requires
        0 <= k < collected(outcomes, outcomes.len()).ft.len(),
    ensures
        collected(outcomes, outcomes.len()).ft[k].starting_index + coin_events_count(
            collected(outcomes, outcomes.len()).ft[k].events.event_kind,
        ) <= collected(outcomes, outcomes.len()).ft_index,
    decreases collected(outcomes, outcomes.len()).ft.len() - k,
{
    lemma_next_start(outcomes, k);
    if k + 1 < collected(outcomes, outcomes.len()).ft.len() {
        lemma_start_fits(outcomes, k + 1);
    }
}

/// The changes that the reported events of a shard stand for are indexed
/// from zero in the order in which they are built, without a gap: the event
/// at place `i` has the index `i`.
pub proof fn lemma_collected_events_indexed(
    outcomes: Seq<RawOutcomeView>,
    header: BlockHeaderView,
    shard_id: u64,
)
    requires
        collected(outcomes, outcomes.len()).fits(),
    ensures
        ({
            let state = collected(outcomes, outcomes.len());
            let events = events_of_collected(state.ft, outcomes, header, shard_id, state.ft.len());
            &&& events.len() == state.ft_index
            &&& forall|i: int|
                0 <= i < events.len() ==> (#[trigger] events[i]).event_index == Some(i as usize)
        }),
{
    lemma_collected_events_upto(
        outcomes,
        header,
        shard_id,
        collected(outcomes, outcomes.len()).ft.len(),
    );
}

} // verus!
