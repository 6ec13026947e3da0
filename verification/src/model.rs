//! The mathematical model of the computation.
use vstd::prelude::*;

#[allow(unused_imports)]
use crate::timeline::{Action, TimelineEvent, Tweak};

verus! {

/// What counts of a timeline event for a given user.
pub struct EventFacts {
    /// The event's id, where it has a valid one.
    pub id: Option<Seq<char>>,
    /// Whether it marks the room as unread.
    pub unread: bool,
    /// Whether it notifies the user.
    pub notify: bool,
    /// Whether it is highlighted for the user.
    pub highlight: bool,
}

impl EventFacts {
    /// Whether the event counts at all.
    pub open spec fn counts(self) -> bool {
        self.unread || self.notify || self.highlight
    }

    /// What the event counts as: at most once as each.
    pub open spec fn tally(self) -> Counts {
        Counts {
            unread: if self.unread {
                1
            } else {
                0
            },
            notifications: if self.notify {
                1
            } else {
                0
            },
            mentions: if self.highlight {
                1
            } else {
                0
            },
        }
    }
}

/// What counts of `event` for the user `user_id`. An event notifies, or is highlighted, if at
/// least one of its push actions says so.
pub open spec fn facts_of<E: TimelineEvent>(event: E, user_id: Seq<char>) -> EventFacts {
    EventFacts {
        id: event.id(),
        unread: event.unread_for(user_id),
        notify: event.actions().contains(Action::Notify),
        highlight: event.actions().contains(Action::SetTweak(Tweak::Highlight(true))),
    }
}

/// What counts of each of `events`.
pub open spec fn facts<E: TimelineEvent>(events: Seq<E>, user_id: Seq<char>) -> Seq<EventFacts> {
    events.map_values(|event: E| facts_of(event, user_id))
}

/// The ids of `events`.
pub open spec fn event_ids<E: TimelineEvent>(events: Seq<E>) -> Seq<Option<Seq<char>>> {
    events.map_values(|event: E| event.id())
}

/// The ids in a list of facts.
pub open spec fn ids(events: Seq<EventFacts>) -> Seq<Option<Seq<char>>> {
    events.map_values(|event: EventFacts| event.id)
}

/// The ids that stand in a list, where an event may have none.
pub open spec fn known_ids(ids: Seq<Option<Seq<char>>>) -> Set<Seq<char>> {
    Set::new(|id: Seq<char>| ids.contains(Some(id)))
}

/// Numbers of events.
pub struct Counts {
    /// How many mark the room as unread.
    pub unread: nat,
    /// How many notify the user.
    pub notifications: nat,
    /// How many are highlighted for the user.
    pub mentions: nat,
}

impl Counts {
    /// Counter by counter, the sum of two counts.
    pub open spec fn plus(self, other: Counts) -> Counts {
        Counts {
            unread: self.unread + other.unread,
            notifications: self.notifications + other.notifications,
            mentions: self.mentions + other.mentions,
        }
    }

    /// Whether each number fits in a counter.
    pub open spec fn fit(self) -> bool {
        &&& self.unread <= u64::MAX
        &&& self.notifications <= u64::MAX
        &&& self.mentions <= u64::MAX
    }

    /// Whether no number exceeds `max`.
    pub open spec fn at_most(self, max: nat) -> bool {
        &&& self.unread <= max
        &&& self.notifications <= max
        &&& self.mentions <= max
    }
}

/// How many of `events` count, and as what.
pub open spec fn total(events: Seq<EventFacts>) -> Counts {
    Counts {
        unread: events.filter(|event: EventFacts| event.unread).len(),
        notifications: events.filter(|event: EventFacts| event.notify).len(),
        mentions: events.filter(|event: EventFacts| event.highlight).len(),
    }
}

/// The event with id `id` stands at `pos`, and at no position before it.
pub open spec fn is_first(ids: Seq<Option<Seq<char>>>, id: Seq<char>, pos: int) -> bool {
    &&& 0 <= pos < ids.len()
    &&& ids[pos] == Some(id)
    &&& forall|i: int| 0 <= i < pos ==> ids[i] != Some(id)
}

/// The event with id `id` stands at `pos`, and at no position after it.
pub open spec fn is_last(ids: Seq<Option<Seq<char>>>, id: Seq<char>, pos: int) -> bool {
    &&& 0 <= pos < ids.len()
    &&& ids[pos] == Some(id)
    &&& forall|i: int| pos < i < ids.len() ==> ids[i] != Some(id)
}

/// The first position of `id`.
pub open spec fn first_position(ids: Seq<Option<Seq<char>>>, id: Seq<char>) -> int {
    choose|pos: int| is_first(ids, id, pos)
}

/// The sync order of the events that have an id: each id is mapped to the last position where it
/// stands.
pub open spec fn sync_index(ids: Seq<Option<Seq<char>>>) -> Map<Seq<char>, int> {
    Map::new(
        |id: Seq<char>| ids.contains(Some(id)),
        |id: Seq<char>| choose|pos: int| is_last(ids, id, pos),
    )
}

/// The position of an event that may be absent, or not known.
pub open spec fn position(index: Map<Seq<char>, int>, id: Option<Seq<char>>) -> Option<int> {
    match id {
        Some(id) => if index.contains_key(id) {
            Some(index[id])
        } else {
            None
        },
        None => None,
    }
}

/// No two ids have the same position.
pub open spec fn is_injective(index: Map<Seq<char>, int>) -> bool {
    forall|a: Seq<char>, b: Seq<char>|
        index.contains_key(a) && index.contains_key(b) && #[trigger] index[a] == #[trigger] index[b]
            ==> a == b
}

/// Whether a position comes later than the best one so far, if there is one.
pub open spec fn beats(pos: int, best: Option<int>) -> bool {
    best matches Some(best) ==> pos > best
}

/// Whether `id` is the best of `candidates`: it is known, comes later than `floor`, and no known
/// candidate comes later than it.
pub open spec fn is_best(
    index: Map<Seq<char>, int>,
    candidates: Set<Seq<char>>,
    floor: Option<int>,
    id: Seq<char>,
) -> bool {
    &&& candidates.contains(id)
    &&& index.contains_key(id)
    &&& beats(index[id], floor)
    &&& forall|other: Seq<char>|
        candidates.contains(other) && #[trigger] index.contains_key(other) ==> index[other]
            <= index[id]
}

/// The best of `candidates`, or `None` where no known candidate comes later than `floor`.
pub open spec fn best(
    index: Map<Seq<char>, int>,
    candidates: Set<Seq<char>>,
    floor: Option<int>,
) -> Option<Seq<char>> {
    if exists|id: Seq<char>| is_best(index, candidates, floor, id) {
        Some(choose|id: Seq<char>| is_best(index, candidates, floor, id))
    } else {
        None
    }
}

/// The mathematical value of the read receipts of a room.
#[verifier::ext_equal]
pub struct ReceiptsView {
    /// How many events are unread, and as what.
    pub counts: Counts,
    /// The event that the latest known read receipt refers to.
    pub latest_active: Option<Seq<char>>,
    /// The events of receipts that have not been matched to their event.
    pub pending: Set<Seq<char>>,
}

/// The read receipts after a sync, given those before it.
///
/// `all` are the known events of the room in sync order, `new` those among them that this sync
/// brought, and `receipts` the events for which it brought a receipt of the user.
///
/// Receipts that were pending and new receipts alike are held against the known events. Those
/// whose event is not known are pending from then on. If one of the others is for a later event
/// than the latest active receipt, the latest such becomes the active one, and what counts is
/// what comes after its event. Otherwise, the new events count in addition to what counted
/// before.
pub open spec fn updated(
    before: ReceiptsView,
    all: Seq<EventFacts>,
    new: Seq<EventFacts>,
    receipts: Set<Seq<char>>,
) -> ReceiptsView {
    let index = sync_index(ids(all));
    let candidates = before.pending.union(receipts);
    let pending = candidates.difference(index.dom());
    match best(index, candidates, position(index, before.latest_active)) {
        Some(id) => ReceiptsView {
            counts: total(all.skip(first_position(ids(all), id) + 1)),
            latest_active: Some(id),
            pending,
        },
        None => ReceiptsView {
            counts: before.counts.plus(total(new)),
            latest_active: before.latest_active,
            pending,
        },
    }
}

/// Whether the counters can hold the counts after a sync. Only where no new receipt becomes the
/// active one do counts add up from sync to sync.
pub open spec fn counters_suffice(
    before: ReceiptsView,
    all: Seq<EventFacts>,
    new: Seq<EventFacts>,
    receipts: Set<Seq<char>>,
) -> bool {
    let index = sync_index(ids(all));
    let candidates = before.pending.union(receipts);
    best(index, candidates, position(index, before.latest_active)) is None
        ==> before.counts.plus(total(new)).fit()
}

// Counting.

/// Adding an event to a list adds what counts of it.
pub proof fn lemma_total_push(events: Seq<EventFacts>, event: EventFacts)
    ensures
        total(events.push(event)) == total(events).plus(event.tally()),
{
    reveal(Seq::filter);
    assert(events.push(event).drop_last() =~= events);
}

/// What counts in two lists one after the other is the sum of what counts in each.
pub proof fn lemma_total_add(a: Seq<EventFacts>, b: Seq<EventFacts>)
    ensures
        total(a + b) == total(a).plus(total(b)),
{
    Seq::filter_distributes_over_add(a, b, |event: EventFacts| event.unread);
    Seq::filter_distributes_over_add(a, b, |event: EventFacts| event.notify);
    Seq::filter_distributes_over_add(a, b, |event: EventFacts| event.highlight);
}

/// No more events count than there are.
pub proof fn lemma_total_bound(events: Seq<EventFacts>)
    ensures
        total(events).at_most(events.len()),
{
    events.lemma_filter_len(|event: EventFacts| event.unread);
    events.lemma_filter_len(|event: EventFacts| event.notify);
    events.lemma_filter_len(|event: EventFacts| event.highlight);
}

/// Nothing counts in the empty list.
pub proof fn lemma_total_empty()
    ensures
        total(Seq::empty()) == (Counts { unread: 0, notifications: 0, mentions: 0 }),
{
    lemma_total_bound(Seq::empty());
}

/// What counts in the first events of a list is at most what counts in all of it.
pub proof fn lemma_total_take(events: Seq<EventFacts>, n: int)
    requires
        0 <= n <= events.len(),
    ensures
        total(events.take(n)).unread <= total(events).unread,
        total(events.take(n)).notifications <= total(events).notifications,
        total(events.take(n)).mentions <= total(events).mentions,
{
    assert(events =~= events.take(n) + events.skip(n));
    lemma_total_add(events.take(n), events.skip(n));
}

// Positions.

/// An id that occurs has a first position, and only one.
pub proof fn lemma_first_position(ids: Seq<Option<Seq<char>>>, id: Seq<char>)
    requires
        ids.contains(Some(id)),
    ensures
        is_first(ids, id, first_position(ids, id)),
        forall|pos: int| is_first(ids, id, pos) ==> pos == first_position(ids, id),
{
    let at = choose|i: int| 0 <= i < ids.len() && ids[i] == Some(id);
    lemma_first_exists(ids, id, at);
    let first = first_position(ids, id);
    assert forall|pos: int| is_first(ids, id, pos) implies pos == first by {
        assert(!(pos < first) && !(first < pos));
    }
}

proof fn lemma_first_exists(ids: Seq<Option<Seq<char>>>, id: Seq<char>, at: int)
    requires
        0 <= at < ids.len(),
        ids[at] == Some(id),
    ensures
        exists|pos: int| is_first(ids, id, pos),
    decreases at,
{
    if forall|i: int| 0 <= i < at ==> ids[i] != Some(id) {
        assert(is_first(ids, id, at));
    } else {
        let earlier = choose|i: int| 0 <= i < at && ids[i] == Some(id);
        lemma_first_exists(ids, id, earlier);
    }
}

proof fn lemma_last_exists(ids: Seq<Option<Seq<char>>>, id: Seq<char>, at: int)
    requires
        0 <= at < ids.len(),
        ids[at] == Some(id),
    ensures
        exists|pos: int| is_last(ids, id, pos),
    decreases ids.len() - at,
{
    if forall|i: int| at < i < ids.len() ==> ids[i] != Some(id) {
        assert(is_last(ids, id, at));
    } else {
        let later = choose|i: int| at < i < ids.len() && ids[i] == Some(id);
        lemma_last_exists(ids, id, later);
    }
}

/// The sync index maps each id to the last position where it stands.
pub proof fn lemma_sync_index(ids: Seq<Option<Seq<char>>>)
    ensures
        forall|id: Seq<char>| #[trigger]
            sync_index(ids).contains_key(id) <==> ids.contains(Some(id)),
        forall|id: Seq<char>|
            sync_index(ids).contains_key(id) ==> is_last(ids, id, #[trigger] sync_index(ids)[id]),
        is_injective(sync_index(ids)),
{
    let index = sync_index(ids);
    assert forall|id: Seq<char>| index.contains_key(id) implies is_last(
        ids,
        id,
        #[trigger] index[id],
    ) by {
        let at = choose|i: int| 0 <= i < ids.len() && ids[i] == Some(id);
        lemma_last_exists(ids, id, at);
    }
}

/// A map that maps each id to the last position where it stands is the sync index.
pub proof fn lemma_is_sync_index(index: Map<Seq<char>, int>, ids: Seq<Option<Seq<char>>>)
    requires
        forall|id: Seq<char>| #[trigger] index.contains_key(id) <==> ids.contains(Some(id)),
        forall|id: Seq<char>|
            index.contains_key(id) ==> is_last(ids, id, #[trigger] index[id]),
    ensures
        index == sync_index(ids),
{
    lemma_sync_index(ids);
    let other = sync_index(ids);
    assert forall|id: Seq<char>| index.contains_key(id) implies index[id] == other[id] by {
        assert(other.contains_key(id));
        assert(is_last(ids, id, index[id]) && is_last(ids, id, other[id]));
        assert(!(index[id] < other[id]) && !(other[id] < index[id]));
    }
    assert(index =~= other);
}

// The best candidate.

/// If a known candidate comes later than `floor`, one of the candidates is the best.
pub proof fn lemma_best_exists(
    index: Map<Seq<char>, int>,
    candidates: Set<Seq<char>>,
    floor: Option<int>,
    id: Seq<char>,
    bound: int,
)
    requires
        candidates.contains(id),
        index.contains_key(id),
        beats(index[id], floor),
        forall|other: Seq<char>|
            candidates.contains(other) && #[trigger] index.contains_key(other) ==> index[other]
                <= bound,
    ensures
        exists|best: Seq<char>| is_best(index, candidates, floor, best),
    decreases bound - index[id],
{
    if is_best(index, candidates, floor, id) {
    } else {
        let later = choose|other: Seq<char>|
            candidates.contains(other) && #[trigger] index.contains_key(other) && index[other]
                > index[id];
        assert(candidates.contains(later) && index.contains_key(later));
        lemma_best_exists(index, candidates, floor, later, bound);
    }
}

/// There is at most one best candidate.
pub proof fn lemma_best_unique(
    index: Map<Seq<char>, int>,
    candidates: Set<Seq<char>>,
    floor: Option<int>,
    id: Seq<char>,
)
    requires
        is_injective(index),
        is_best(index, candidates, floor, id),
    ensures
        best(index, candidates, floor) == Some(id),
{
    let other = best(index, candidates, floor)->0;
    assert(is_best(index, candidates, floor, other));
    assert(index[other] <= index[id] && index[id] <= index[other]);
}

} // verus!
