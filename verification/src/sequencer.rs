//! The order of storage: every event that is kept gets its place within its
//! shard and block.

use crate::coin::{CandidateEvent, CandidateEventView};
use crate::coin_events::{events_of_collected, indexed_from, lemma_collected_events_indexed};
use crate::events::collected;
use crate::outcome::{BlockHeaderView, RawOutcomeView};
use vstd::prelude::*;

verus! {

/// The events with indices counted from zero in their order.
pub open spec fn enumerated(events: Seq<CandidateEventView>) -> Seq<CandidateEventView> {
    indexed_from(events, 0)
}

/// Gives every event its place: the first gets the index zero, each other
/// one the index after that of the event before it. Nothing else changes.
pub fn enumerate_events(events: &mut Vec<CandidateEvent>)
    ensures
        final(events).deep_view() == enumerated(old(events).deep_view()),
{
    let mut out: Vec<CandidateEvent> = Vec::new();
    let mut i: usize = 0;
    let ghost goal = enumerated(events.deep_view());
    assert(out.deep_view() =~= goal.take(0));
    while i < events.len()
        invariant
            i <= events.len(),
            goal == enumerated(events.deep_view()),
            out.deep_view() == goal.take(i as int),
        decreases events.len() - i,
    {
        assert(events.deep_view()[i as int] == events[i as int]@);
        let mut copy = events[i].duplicate();
        copy.event_index = Some(i);
        let ghost before = out.deep_view();
        out.push(copy);
        assert(out.deep_view() =~= before.push(copy@));
        assert(out.deep_view() =~= goal.take(i + 1));
        i = i + 1;
    }
    assert(goal.take(i as int) =~= goal);
    *events = out;
}

/// Enumerating twice is enumerating once.
pub proof fn lemma_enumerated_twice(events: Seq<CandidateEventView>)
    requires
        events.len() <= usize::MAX,
    ensures
        enumerated(enumerated(events)) == enumerated(events),
{
    assert(enumerated(enumerated(events)) =~= enumerated(events));
}

/// The indices run from zero without a gap, and every event stays what it
/// was but for its index.
pub proof fn lemma_enumerated(events: Seq<CandidateEventView>)
    requires
        events.len() <= usize::MAX,
    ensures
        enumerated(events).len() == events.len(),
        forall|i: int|
            0 <= i < events.len() ==> (#[trigger] enumerated(events)[i]) == (CandidateEventView {
                event_index: Some(i as usize),
                ..events[i]
            }),
{
}

/// The events that a shard reports are built with the indices that
/// enumerating gives them: where none of them is dropped, enumerating
/// changes nothing.
pub proof fn lemma_collected_events_enumerated(
    outcomes: Seq<RawOutcomeView>,
    header: BlockHeaderView,
    shard_id: u64,
)
    requires
        collected(outcomes, outcomes.len()).fits(),
    ensures
        ({
            let state = collected(outcomes, outcomes.len());
            let events = events_of_collected(state.ft, outcomes, header, shard_id, state.ft.len());
            enumerated(events) == events
        }),
{
    let state = collected(outcomes, outcomes.len());
    let events = events_of_collected(state.ft, outcomes, header, shard_id, state.ft.len());
    lemma_collected_events_indexed(outcomes, header, shard_id);
    assert(enumerated(events) =~= events);
}

} // verus!
