//! Reading the events that contracts report in their logs.

use crate::event_types::{
    NearEvent, NearEventView, Nep141Event, Nep141EventKind, Nep141EventKindView, Nep141EventView,
    Nep171Event, Nep171EventKind, Nep171EventKindView, Nep171EventView, Record,
};
use crate::json::{json_parsed, Json};
use crate::outcome::{RawOutcome, RawOutcomeView};
use crate::text::{chars_of, range_starts_with, trim_range, trimmed};
use vstd::prelude::*;
use vstd::string::StrSliceExecFns;
use vstd::utf8::encode_utf8;

verus! {

/// The standards whose events are read.
#[derive(Debug, Clone, Copy, PartialEq, Eq, Structural)]
pub enum Event {
    Nep141,
    Nep171,
}

impl Event {
    /// The name under which the contract table keeps the standard.
    pub open spec fn standard(self) -> Seq<char> {
        match self {
            Event::Nep141 => "nep141"@,
            Event::Nep171 => "nep171"@,
        }
    }

    /// The name under which the contract table keeps the standard.
    pub fn name(&self) -> (out: &'static str)
        ensures
            out@ == self.standard(),
    {
        match self {
            Event::Nep141 => "nep141",
            Event::Nep171 => "nep171",
        }
    }
}

/// The number of balance changes that a fungible-token event stands for: one
/// for each mint and each burn, two for each transfer, which changes the
/// balance of the sender and that of the receiver.
pub open spec fn coin_events_count(kind: Nep141EventKindView) -> nat {
    match kind {
        Nep141EventKindView::FtMint(v) => v.len(),
        Nep141EventKindView::FtTransfer(v) => 2 * v.len(),
        Nep141EventKindView::FtBurn(v) => v.len(),
    }
}

/// The number of records of a non-fungible-token event.
pub open spec fn nft_events_count(kind: Nep171EventKindView) -> nat {
    match kind {
        Nep171EventKindView::NftMint(v) => v.len(),
        Nep171EventKindView::NftTransfer(v) => v.len(),
        Nep171EventKindView::NftBurn(v) => v.len(),
    }
}

/// The number of balance changes that the event stands for.
pub fn get_coin_events_count(event: &Nep141EventKind) -> (count: usize)
    requires
        coin_events_count(event.deep_view()) <= usize::MAX,
    ensures
        count == coin_events_count(event.deep_view()),
{
    match event {
        Nep141EventKind::FtMint(v) => v.len(),
        Nep141EventKind::FtTransfer(v) => v.len() * 2,
        Nep141EventKind::FtBurn(v) => v.len(),
    }
}

/// The number of records of the event.
pub fn get_nft_events_count(event: &Nep171EventKind) -> (count: usize)
    ensures
        count == nft_events_count(event.deep_view()),
{
    match event {
        Nep171EventKind::NftMint(v) => v.len(),
        Nep171EventKind::NftTransfer(v) => v.len(),
        Nep171EventKind::NftBurn(v) => v.len(),
    }
}

/// The marker that opens a log line which reports an event.
pub open spec fn event_marker() -> Seq<char> {
    "EVENT_JSON:"@
}

/// What a log line holds behind the marker, white space taken off; nothing
/// where the line, white space taken off, does not begin with the marker.
pub open spec fn event_payload(line: Seq<char>) -> Option<Seq<char>> {
    let text = trimmed(line);
    if event_marker().is_prefix_of(text) {
        Some(trimmed(text.skip(event_marker().len() as int)))
    } else {
        None
    }
}

/// The event that a log line reports, if it reports one.
pub open spec fn event_of_line(line: Seq<char>) -> Option<NearEventView> {
    match event_payload(line) {
        Some(payload) => match json_parsed(encode_utf8(payload)) {
            Some(document) => NearEvent::decoded(document),
            None => None,
        },
        None => None,
    }
}

/// The events that the log lines report, in the order of the lines.
pub open spec fn events_of_logs(logs: Seq<Seq<char>>) -> Seq<NearEventView>
    decreases logs.len(),
{
    if logs.len() == 0 {
        Seq::empty()
    } else {
        let front = events_of_logs(logs.drop_last());
        match event_of_line(logs.last()) {
            Some(event) => front.push(event),
            None => front,
        }
    }
}

/// Finds what a log line holds behind the marker.
pub fn payload_of_line(line: &str) -> (out: Option<&str>)
    ensures
        out.deep_view() == event_payload(line@),
{
    let chars = chars_of(line);
    let (a, b) = trim_range(&chars, 0, chars.len());
    let marker = chars_of("EVENT_JSON:");
    assert(chars@.subrange(0, chars.len() as int) =~= line@);
    if !range_starts_with(&chars, a, b, &marker) {
        return None;
    }
    let (c, d) = trim_range(&chars, a + marker.len(), b);
    assert(chars@.subrange(a as int, b as int).skip(marker.len() as int) =~= chars@.subrange(
        a + marker.len(),
        b as int,
    ));
    Some(line.substring_char(c, d))
}

/// Reads the event that a log line reports. A line without the marker
/// reports none, and neither does one whose payload is no JSON document or
/// no event of a known kind.
pub fn event_of_log(line: &str) -> (out: Option<NearEvent>)
    ensures
        out.deep_view() == event_of_line(line@),
{
    match payload_of_line(line) {
        Some(payload) => match Json::parse(payload.as_bytes()) {
            Some(document) => NearEvent::decode(&document),
            None => None,
        },
        None => None,
    }
}

/// Reads the events that an outcome reports in its logs, in log order.
pub fn extract_events(outcome: &RawOutcome) -> (out: Vec<NearEvent>)
    ensures
        out.deep_view() == events_of_logs(outcome@.logs),
{
    let mut out: Vec<NearEvent> = Vec::new();
    let mut i: usize = 0;
    let ghost logs = outcome@.logs;
    assert(out.deep_view() =~= events_of_logs(logs.take(0)));
    while i < outcome.logs.len()
        invariant
            i <= outcome.logs.len(),
            logs == outcome@.logs,
            logs.len() == outcome.logs.len(),
            out.deep_view() == events_of_logs(logs.take(i as int)),
        decreases outcome.logs.len() - i,
    {
        proof {
            assert(logs.take(i + 1).drop_last() =~= logs.take(i as int));
            assert(logs[i as int] == outcome.logs[i as int]@);
        }
        let ghost before = out.deep_view();
        match event_of_log(outcome.logs[i].as_str()) {
            Some(event) => {
                out.push(event);
                assert(out.deep_view() =~= before.push(event.deep_view()));
            },
            None => {},
        }
        i = i + 1;
    }
    assert(logs.take(i as int) =~= logs);
    out
}


/// A fungible-token event with the place of its outcome in the shard and the
/// index of its first balance change.
#[derive(Debug, Clone, PartialEq, Eq)]
pub struct FtEvent {
    pub events: Nep141Event,
    pub outcome: usize,
    pub starting_index: usize,
}

pub struct FtEventView {
    pub events: Nep141EventView,
    pub outcome: int,
    pub starting_index: int,
}

impl FtEventView {
    /// Whether the event belongs to one of `outcomes` outcomes and its
    /// indices are within the machine's word.
    pub open spec fn placed(self, outcomes: nat) -> bool {
        &&& 0 <= self.outcome < outcomes
        &&& 0 <= self.starting_index
        &&& self.starting_index + coin_events_count(self.events.event_kind) <= usize::MAX
    }
}

impl DeepView for FtEvent {
    type V = FtEventView;

    open spec fn deep_view(&self) -> FtEventView {
        FtEventView {
            events: self.events.deep_view(),
            outcome: self.outcome as int,
            starting_index: self.starting_index as int,
        }
    }
}

/// A non-fungible-token event with the place of its outcome in the shard
/// and the index of its first record.
#[derive(Debug, Clone, PartialEq, Eq)]
pub struct NftEvent {
    pub events: Nep171Event,
    pub outcome: usize,
    pub starting_index: usize,
}

pub struct NftEventView {
    pub events: Nep171EventView,
    pub outcome: int,
    pub starting_index: int,
}

impl DeepView for NftEvent {
    type V = NftEventView;

    open spec fn deep_view(&self) -> NftEventView {
        NftEventView {
            events: self.events.deep_view(),
            outcome: self.outcome as int,
            starting_index: self.starting_index as int,
        }
    }
}

/// The events of one shard, each standard by itself and in the order of
/// the logs.
#[derive(Debug, Clone, PartialEq, Eq)]
pub struct CollectedEvents {
    pub ft: Vec<FtEvent>,
    pub nft: Vec<NftEvent>,
}

/// The events collected so far, with the next free index of each standard.
/// Events of the standards may come in any mix; each standard counts its own
/// indices.
pub struct Collected {
    pub ft: Seq<FtEventView>,
    pub nft: Seq<NftEventView>,
    pub ft_index: nat,
    pub nft_index: nat,
}

impl Collected {
    /// Nothing collected.
    pub open spec fn nothing() -> Collected {
        Collected { ft: Seq::empty(), nft: Seq::empty(), ft_index: 0, nft_index: 0 }
    }

    /// The collection with one more event, reported by the outcome at `place`.
    pub open spec fn with_event(self, event: NearEventView, place: int) -> Collected {
        match event {
            NearEventView::Nep141(e) => Collected {
                ft: self.ft.push(
                    FtEventView { events: e, outcome: place, starting_index: self.ft_index as int },
                ),
                ft_index: self.ft_index + coin_events_count(e.event_kind),
                ..self
            },
            NearEventView::Nep171(e) => Collected {
                nft: self.nft.push(
                    NftEventView {
                        events: e,
                        outcome: place,
                        starting_index: self.nft_index as int,
                    },
                ),
                nft_index: self.nft_index + nft_events_count(e.event_kind),
                ..self
            },
        }
    }

    /// The collection with the first `count` of `events` added.
    pub open spec fn with_events(self, events: Seq<NearEventView>, place: int, count: nat) -> Collected
        decreases count,
    {
        if count == 0 {
            self
        } else {
            self.with_events(events, place, (count - 1) as nat).with_event(events[count - 1], place)
        }
    }

    /// Whether both indices are within the machine's word.
    pub open spec fn fits(self) -> bool {
        self.ft_index <= usize::MAX && self.nft_index <= usize::MAX
    }
}

/// What the first `count` outcomes of a shard report.
pub open spec fn collected(outcomes: Seq<RawOutcomeView>, count: nat) -> Collected
    decreases count,
{
    if count == 0 {
        Collected::nothing()
    } else {
        let events = events_of_logs(outcomes[count - 1].logs);
        collected(outcomes, (count - 1) as nat).with_events(events, count - 1, events.len())
    }
}

/// Adding events never lowers an index.
pub proof fn lemma_with_events_grows(
    state: Collected,
    events: Seq<NearEventView>,
    place: int,
    count: nat,
    more: nat,
)
    requires
        count <= more,
    ensures
        state.with_events(events, place, count).ft_index <= state.with_events(
            events,
            place,
            more,
        ).ft_index,
        state.with_events(events, place, count).nft_index <= state.with_events(
            events,
            place,
            more,
        ).nft_index,
    decreases more,
{
    if count < more {
        lemma_with_events_grows(state, events, place, count, (more - 1) as nat);
    }
}

/// Reading more outcomes never lowers an index.
pub proof fn lemma_collected_grows(outcomes: Seq<RawOutcomeView>, count: nat, more: nat)
    requires
        count <= more,
    ensures
        collected(outcomes, count).ft_index <= collected(outcomes, more).ft_index,
        collected(outcomes, count).nft_index <= collected(outcomes, more).nft_index,
    decreases more,
{
    if count < more {
        lemma_collected_grows(outcomes, count, (more - 1) as nat);
        let events = events_of_logs(outcomes[more - 1].logs);
        lemma_with_events_grows(collected(outcomes, (more - 1) as nat), events, more - 1, 0, events.len());
    }
}

/// Each event starts where the one before it of the same standard ends: the
/// indices of a standard run from zero without a gap.
pub open spec fn gap_free(state: Collected) -> bool {
    &&& forall|k: int|
        0 <= k < state.ft.len() ==> (#[trigger] state.ft[k]).starting_index + coin_events_count(
            state.ft[k].events.event_kind,
        ) == (if k + 1 < state.ft.len() {
            state.ft[k + 1].starting_index
        } else {
            state.ft_index as int
        })
    &&& forall|k: int|
        0 <= k < state.nft.len() ==> (#[trigger] state.nft[k]).starting_index + nft_events_count(
            state.nft[k].events.event_kind,
        ) == (if k + 1 < state.nft.len() {
            state.nft[k + 1].starting_index
        } else {
            state.nft_index as int
        })
    &&& state.ft.len() > 0 ==> state.ft[0].starting_index == 0
    &&& state.nft.len() > 0 ==> state.nft[0].starting_index == 0
    &&& state.ft.len() == 0 ==> state.ft_index == 0
    &&& state.nft.len() == 0 ==> state.nft_index == 0
}

/// Adding an event keeps the indices without a gap.
pub proof fn lemma_with_event_gap_free(state: Collected, event: NearEventView, place: int)
    requires
        gap_free(state),
    ensures
        gap_free(state.with_event(event, place)),
{
    let next = state.with_event(event, place);
    match event {
        NearEventView::Nep141(e) => {
            assert forall|k: int| 0 <= k < next.ft.len() implies (#[trigger] next.ft[k]).starting_index
                + coin_events_count(next.ft[k].events.event_kind) == (if k + 1 < next.ft.len() {
                next.ft[k + 1].starting_index
            } else {
                next.ft_index as int
            }) by {
                if k < state.ft.len() {
                    assert(next.ft[k] == state.ft[k]);
                }
            }
        },
        NearEventView::Nep171(e) => {
            assert forall|k: int|
                0 <= k < next.nft.len() implies (#[trigger] next.nft[k]).starting_index
                + nft_events_count(next.nft[k].events.event_kind) == (if k + 1 < next.nft.len() {
                next.nft[k + 1].starting_index
            } else {
                next.nft_index as int
            }) by {
                if k < state.nft.len() {
                    assert(next.nft[k] == state.nft[k]);
                }
            }
        },
    }
}

proof fn lemma_with_events_gap_free(
    state: Collected,
    events: Seq<NearEventView>,
    place: int,
    count: nat,
)
    requires
        gap_free(state),
    ensures
        gap_free(state.with_events(events, place, count)),
    decreases count,
{
    if count > 0 {
        lemma_with_events_gap_free(state, events, place, (count - 1) as nat);
        lemma_with_event_gap_free(
            state.with_events(events, place, (count - 1) as nat),
            events[count - 1],
            place,
        );
    }
}

/// The indices of what a shard reports run from zero without a gap, each
/// standard by itself.
pub proof fn lemma_collected_gap_free(outcomes: Seq<RawOutcomeView>, count: nat)
    ensures
        gap_free(collected(outcomes, count)),
    decreases count,
{
    if count > 0 {
        lemma_collected_gap_free(outcomes, (count - 1) as nat);
        let events = events_of_logs(outcomes[count - 1].logs);
        lemma_with_events_gap_free(
            collected(outcomes, (count - 1) as nat),
            events,
            count - 1,
            events.len(),
        );
    }
}


/// The number of balance changes that the event stands for, where the
/// machine's word holds it.
pub fn checked_coin_events_count(event: &Nep141EventKind) -> (count: Option<usize>)
    ensures
        match count {
            Some(n) => n == coin_events_count(event.deep_view()),
            None => coin_events_count(event.deep_view()) > usize::MAX,
        },
{
    match event {
        Nep141EventKind::FtTransfer(v) => {
            assert(v.deep_view().len() == v.len());
            if v.len() <= usize::MAX / 2 {
                Some(get_coin_events_count(event))
            } else {
                None
            }
        },
        Nep141EventKind::FtMint(v) => {
            assert(v.deep_view().len() == v.len());
            Some(get_coin_events_count(event))
        },
        Nep141EventKind::FtBurn(v) => {
            assert(v.deep_view().len() == v.len());
            Some(get_coin_events_count(event))
        },
    }
}

/// Collects what the outcomes of one shard report and gives each event the
/// index of its first record, counted from zero for each standard. Nothing
/// is returned where an index would pass the machine's word.
pub fn collect_events(outcomes: &Vec<RawOutcome>) -> (out: Option<CollectedEvents>)
    ensures
        match out {
            Some(c) => {
                &&& collected(outcomes.deep_view(), outcomes.len() as nat).fits()
                &&& c.ft.deep_view() == collected(outcomes.deep_view(), outcomes.len() as nat).ft
                &&& c.nft.deep_view() == collected(outcomes.deep_view(), outcomes.len() as nat).nft
                &&& forall|k: int|
                    0 <= k < c.ft.len() ==> (#[trigger] c.ft.deep_view()[k]).placed(
                        outcomes.len() as nat,
                    )
            },
            None => !collected(outcomes.deep_view(), outcomes.len() as nat).fits(),
        },
{
    let mut ft: Vec<FtEvent> = Vec::new();
    let mut nft: Vec<NftEvent> = Vec::new();
    let mut ft_index: usize = 0;
    let mut nft_index: usize = 0;
    let ghost all = outcomes.deep_view();
    let mut i: usize = 0;
    assert(ft.deep_view() =~= Seq::<FtEventView>::empty());
    assert(nft.deep_view() =~= Seq::<NftEventView>::empty());
    while i < outcomes.len()
        invariant
            i <= outcomes.len(),
            all == outcomes.deep_view(),
            ft.deep_view() == collected(all, i as nat).ft,
            nft.deep_view() == collected(all, i as nat).nft,
            ft_index == collected(all, i as nat).ft_index,
            nft_index == collected(all, i as nat).nft_index,
            forall|k: int|
                0 <= k < ft.len() ==> (#[trigger] ft.deep_view()[k]).placed(outcomes.len() as nat)
                    && ft.deep_view()[k].starting_index + coin_events_count(
                    ft.deep_view()[k].events.event_kind,
                ) <= ft_index,
        decreases outcomes.len() - i,
    {
        let mut events = extract_events(&outcomes[i]);
        let ghost list = events.deep_view();
        let ghost raw = events@;
        let ghost start = collected(all, i as nat);
        assert(all[i as int] == outcomes[i as int]@);
        let ghost mut j: nat = 0;
        assert(raw.skip(0) =~= raw);
        while events.len() > 0
            invariant
                i < outcomes.len(),
                all == outcomes.deep_view(),
                list == events_of_logs(all[i as int].logs),
                list.len() == raw.len(),
                forall|k: int| 0 <= k < raw.len() ==> (#[trigger] raw[k]).deep_view() == list[k],
                start == collected(all, i as nat),
                j <= raw.len(),
                events@ == raw.skip(j as int),
                ft.deep_view() == start.with_events(list, i as int, j).ft,
                nft.deep_view() == start.with_events(list, i as int, j).nft,
                ft_index == start.with_events(list, i as int, j).ft_index,
                nft_index == start.with_events(list, i as int, j).nft_index,
                forall|k: int|
                    0 <= k < ft.len() ==> (#[trigger] ft.deep_view()[k]).placed(
                        outcomes.len() as nat,
                    ) && ft.deep_view()[k].starting_index + coin_events_count(
                        ft.deep_view()[k].events.event_kind,
                    ) <= ft_index,
            decreases events.len(),
        {
            let ghost state = start.with_events(list, i as int, j);
            let event = events.remove(0);
            proof {
                assert(raw.skip(j as int)[0] == raw[j as int]);
                assert(raw.skip(j as int).remove(0) =~= raw.skip(j as int + 1));
                assert(event.deep_view() == list[j as int]);
            }
            let ghost next = state.with_event(event.deep_view(), i as int);
            match event {
                NearEvent::Nep141(e) => {
                    let count = checked_coin_events_count(&e.event_kind);
                    let room = usize::MAX - ft_index;
                    let fits = match count {
                        Some(n) => n <= room,
                        None => false,
                    };
                    if !fits {
                        proof {
                            assert(next.ft_index > usize::MAX);
                            lemma_with_events_grows(
                                start,
                                list,
                                i as int,
                                j + 1,
                                list.len(),
                            );
                            lemma_collected_grows(
                                all,
                                (i + 1) as nat,
                                outcomes.len() as nat,
                            );
                        }
                        return None;
                    }
                    let n = count.unwrap();
                    let ghost before = ft.deep_view();
                    let item = FtEvent { events: e, outcome: i, starting_index: ft_index };
                    ft.push(item);
                    assert(ft.deep_view() =~= before.push(item.deep_view()));
                    ft_index = ft_index + n;
                    assert forall|k: int| 0 <= k < ft.len() implies (
                    #[trigger] ft.deep_view()[k]).placed(outcomes.len() as nat)
                        && ft.deep_view()[k].starting_index + coin_events_count(
                        ft.deep_view()[k].events.event_kind,
                    ) <= ft_index by {
                        if k < before.len() {
                            assert(ft.deep_view()[k] == before[k]);
                        }
                    }
                },
                NearEvent::Nep171(e) => {
                    let n = get_nft_events_count(&e.event_kind);
                    if n > usize::MAX - nft_index {
                        proof {
                            assert(next.nft_index > usize::MAX);
                            lemma_with_events_grows(
                                start,
                                list,
                                i as int,
                                j + 1,
                                list.len(),
                            );
                            lemma_collected_grows(
                                all,
                                (i + 1) as nat,
                                outcomes.len() as nat,
                            );
                        }
                        return None;
                    }
                    let ghost before = nft.deep_view();
                    let item = NftEvent { events: e, outcome: i, starting_index: nft_index };
                    nft.push(item);
                    assert(nft.deep_view() =~= before.push(item.deep_view()));
                    nft_index = nft_index + n;
                },
            }
            proof {
                j = j + 1;
            }
        }
        i = i + 1;
    }
    Some(CollectedEvents { ft, nft })
}

} // verus!
