//! The update of a room's read receipts by a sync.
use eyeball_im::Vector;
use vstd::prelude::*;

use crate::event_id_set::EventIdSet;
use crate::provider::{vector_extend, vector_iter, PreviousEventsProvider};
use crate::receipt::ReceiptEventContent;
use crate::room::{LatestReadReceipt, RoomReadReceipts};
use crate::selector::ReceiptSelector;
use crate::timeline::{SyncTimelineEvent, TimelineEvent};

#[allow(unused_imports)]
use crate::model::{
    best, counters_suffice, event_ids, facts, facts_of, ids, is_best, known_ids, lemma_sync_index,
    lemma_total_bound, lemma_total_empty, lemma_total_push, lemma_total_take, position, sync_index,
    total, updated, Counts, EventFacts, ReceiptsView,
};
#[allow(unused_imports)]
use crate::provider::vector_contents;
#[allow(unused_imports)]
use crate::receipt::{events_read_by, has_read, EventReceiptsView};
#[allow(unused_imports)]
use crate::room::receipt_target;
#[allow(unused_imports)]
use crate::selector::{lemma_consider_union, receipts_for, unmatched};
#[allow(unused_imports)]
use crate::timeline::{event_id_field, Action, SyncTimelineEventView, Tweak};
#[allow(unused_imports)]
use crate::unread::is_unread_json;

verus! {

/// The events for which a sync brought a receipt of the user, if it brought receipts at all.
pub open spec fn new_receipts(
    receipt_event: Option<&ReceiptEventContent>,
    user_id: Seq<char>,
) -> Set<Seq<char>> {
    match receipt_event {
        Some(content) => events_read_by(content@, user_id),
        None => Set::empty(),
    }
}

/// Holds the receipts of the user, those that are pending and those that a sync brought, against
/// all known events of a room in sync order. Those whose event is not known are pending from
/// then on.
///
/// Returns the receipt that becomes the active one, if one does, and whether there was a change
/// in what is pending.
pub fn match_receipts<A: TimelineEvent>(
    user_id: &str,
    receipt_event: Option<&ReceiptEventContent>,
    all_events: &[A],
    latest_active: &Option<LatestReadReceipt>,
    pending: &mut EventIdSet,
) -> (outcome: (Option<LatestReadReceipt>, bool))
    ensures
        final(pending)@ == old(pending)@.union(new_receipts(receipt_event, user_id@)).difference(
            known_ids(event_ids(all_events@)),
        ),
        receipt_target(outcome.0) == best(
            sync_index(event_ids(all_events@)),
            old(pending)@.union(new_receipts(receipt_event, user_id@)),
            position(sync_index(event_ids(all_events@)), receipt_target(*latest_active)),
        ),
        outcome.1 == (final(pending)@ != old(pending)@),
{
    let ghost before = pending@;
    let ghost receipts = new_receipts(receipt_event, user_id@);
    let ghost index = sync_index(event_ids(all_events@));
    let ghost known = index.dom();
    let ghost candidates = before.union(receipts);
    assert(known =~= known_ids(event_ids(all_events@)));
    let mut has_changes = false;

    let mut selector = {
        let latest_active: Option<&str> = match latest_active {
            Some(receipt) => Some(receipt.event_id.as_str()),
            None => None,
        };
        ReceiptSelector::new(all_events, latest_active)
    };
    let ghost start = selector@;
    let num_pending: usize = pending.len();
    selector.handle_pending_receipts(pending);
    if pending.len() < num_pending {
        has_changes = true;
    }
    proof {
        lemma_shrinks(before, known);
    }
    if let Some(receipt_event) = receipt_event {
        let new_pending = selector.handle_new_receipt(user_id, receipt_event);
        let ghost new_ids = new_pending@.map_values(|id: String| id@);
        let ghost kept = pending@;
        let ghost shrunk = has_changes;
        let mut i: usize = 0;
        while i < new_pending.len()
            invariant
                i <= new_pending@.len(),
                new_ids == new_pending@.map_values(|id: String| id@),
                pending@ == kept.union(new_ids.take(i as int).to_set()),
                has_changes == (shrunk || pending@ != kept),
            decreases new_pending@.len() - i,
        {
            let ghost so_far = pending@;
            let added = pending.insert(new_pending[i].clone());
            if added {
                has_changes = true;
            }
            proof {
                let id = new_ids[i as int];
                assert(new_ids.take(i + 1) =~= new_ids.take(i as int).push(id));
                lemma_push_to_set(new_ids.take(i as int), id);
                assert(pending@ =~= kept.union(new_ids.take(i + 1).to_set()));
                if added {
                    assert(pending@.contains(id) && !kept.contains(id));
                } else {
                    assert(pending@ =~= so_far);
                }
            }
            i += 1;
        }
        proof {
            assert(new_ids.take(i as int) =~= new_ids);
            lemma_unmatched(receipt_event@, receipt_event.in_order(), user_id@, known);
            lemma_consider_union(start, before, receipts);
            assert(pending@ =~= candidates.difference(known));
            if shrunk {
                assert(!(kept =~= before));
                let id = choose|id: Seq<char>| before.contains(id) && !kept.contains(id);
                assert(known.contains(id) && !pending@.contains(id));
            }
        }
    } else {
        proof {
            assert(candidates =~= before);
        }
    }
    assert(selector@ == start.consider(candidates));
    assert(pending@ == candidates.difference(known));
    assert(has_changes == (pending@ != before));

    (selector.finish(), has_changes)
}

/// Given all known events of a room in sync order, and those among them that came with this
/// sync, update the counts of unread messages, notifications and highlights in place.
///
/// Returns a boolean indicating if a field changed value in the read receipts.
pub fn update_read_receipts<A: TimelineEvent, N: TimelineEvent>(
    user_id: &str,
    receipt_event: Option<&ReceiptEventContent>,
    all_events: &[A],
    new_events: &[N],
    read_receipts: &mut RoomReadReceipts,
) -> (changed: bool)
    requires
        counters_suffice(
            old(read_receipts)@,
            facts(all_events@, user_id@),
            facts(new_events@, user_id@),
            new_receipts(receipt_event, user_id@),
        ),
    ensures
        final(read_receipts)@ == updated(
            old(read_receipts)@,
            facts(all_events@, user_id@),
            facts(new_events@, user_id@),
            new_receipts(receipt_event, user_id@),
        ),
        final(read_receipts)@.pending == old(read_receipts)@.pending.union(
            new_receipts(receipt_event, user_id@),
        ).difference(known_ids(event_ids(all_events@))),
        changed == (final(read_receipts)@ != old(read_receipts)@),
{
    let ghost before = read_receipts@;
    let ghost all = facts(all_events@, user_id@);
    let ghost new = facts(new_events@, user_id@);
    let ghost receipts = new_receipts(receipt_event, user_id@);
    let ghost index = sync_index(ids(all));
    let ghost candidates = before.pending.union(receipts);
    let ghost floor = position(index, before.latest_active);
    proof {
        assert(event_ids(all_events@) =~= ids(all));
        assert(index.dom() =~= known_ids(ids(all)));
    }
    let (new_receipt, pending_changed) = match_receipts(
        user_id,
        receipt_event,
        all_events,
        &read_receipts.latest_active,
        &mut read_receipts.pending,
    );
    let mut has_changes = pending_changed;

    if let Some(new_receipt) = new_receipt {
        // We've found the id of an event to which the receipt attaches. The associated event may
        // either come from the new batch of events associated to this sync, or it may live in
        // the past timeline events we know about.
        let event_id: String = new_receipt.event_id.clone();
        proof {
            lemma_sync_index(ids(all));
            assert(is_best(index, candidates, floor, event_id@));
            assert(before.latest_active != Some(event_id@));
        }

        // First, save the event id as the latest one that has a read receipt.
        read_receipts.latest_active = Some(new_receipt);

        // The event for the receipt is in `all_events`, so we'll find it and can count safely
        // from here.
        if read_receipts.find_and_account_events(event_id.as_str(), user_id, all_events) {
            has_changes = true;
        }
        return has_changes;
    }
    // If we haven't returned at this point, it means we don't have any new "active" read
    // receipt. So either there was a previous one further in the past, or none.
    //
    // In that case, accumulate all events as part of the current batch, and wait for the next
    // receipt.

    let ghost pending = read_receipts.pending@;
    proof {
        assert(new.take(0) =~= Seq::empty());
        lemma_total_empty();
    }
    let mut i: usize = 0;
    while i < new_events.len()
        invariant
            i <= new_events@.len(),
            new == facts(new_events@, user_id@),
            before.counts.plus(total(new)).fit(),
            read_receipts@ == (ReceiptsView {
                counts: before.counts.plus(total(new.take(i as int))),
                latest_active: before.latest_active,
                pending,
            }),
            has_changes == (pending_changed || total(new.take(i as int)) != (Counts {
                unread: 0,
                notifications: 0,
                mentions: 0,
            })),
        decreases new_events@.len() - i,
    {
        let event = &new_events[i];
        proof {
            assert(new[i as int] == facts_of(*event, user_id@));
            assert(new.take(i + 1) =~= new.take(i as int).push(new[i as int]));
            lemma_total_push(new.take(i as int), new[i as int]);
            lemma_total_take(new, i + 1);
        }
        if read_receipts.account_event(event, user_id) {
            has_changes = true;
        }
        i += 1;
    }
    assert(new.take(i as int) =~= new);
    has_changes
}

/// Counts events from scratch.
fn count_events<E: TimelineEvent>(user_id: &str, events: &[E]) -> (counted: RoomReadReceipts)
    ensures
        counted.counts() == total(facts(events@, user_id@)),
{
    let ghost all = facts(events@, user_id@);
    let mut counted = RoomReadReceipts::default();
    proof {
        assert(all.take(0) =~= Seq::empty());
        lemma_total_empty();
    }
    let mut i: usize = 0;
    while i < events.len()
        invariant
            i <= events@.len(),
            all == facts(events@, user_id@),
            counted.counts() == total(all.take(i as int)),
        decreases events@.len() - i,
    {
        let event = &events[i];
        proof {
            assert(all[i as int] == facts_of(*event, user_id@));
            assert(all.take(i + 1) =~= all.take(i as int).push(all[i as int]));
            lemma_total_push(all.take(i as int), all[i as int]);
            lemma_total_bound(all.take(i + 1));
        }
        counted.account_event(event, user_id);
        i += 1;
    }
    assert(all.take(i as int) =~= all);
    counted
}

/// As [`update_read_receipts`], but for any counters: `None`, with the read receipts left as they
/// were, where a counter cannot hold what there would be to count.
pub fn try_update_read_receipts<A: TimelineEvent, N: TimelineEvent>(
    user_id: &str,
    receipt_event: Option<&ReceiptEventContent>,
    all_events: &[A],
    new_events: &[N],
    read_receipts: &mut RoomReadReceipts,
) -> (changed: Option<bool>)
    ensures
        changed is Some == counters_suffice(
            old(read_receipts)@,
            facts(all_events@, user_id@),
            facts(new_events@, user_id@),
            new_receipts(receipt_event, user_id@),
        ),
        match changed {
            Some(changed) => {
                &&& final(read_receipts)@ == updated(
                    old(read_receipts)@,
                    facts(all_events@, user_id@),
                    facts(new_events@, user_id@),
                    new_receipts(receipt_event, user_id@),
                )
                &&& final(read_receipts)@.pending == old(read_receipts)@.pending.union(
                    new_receipts(receipt_event, user_id@),
                ).difference(known_ids(event_ids(all_events@)))
                &&& changed == (final(read_receipts)@ != old(read_receipts)@)
            },
            None => final(read_receipts)@ == old(read_receipts)@,
        },
{
    proof {
        assert(event_ids(all_events@) =~= ids(facts(all_events@, user_id@)));
    }
    let mut pending = read_receipts.pending.clone();
    let (new_receipt, _) = match_receipts(
        user_id,
        receipt_event,
        all_events,
        &read_receipts.latest_active,
        &mut pending,
    );
    if new_receipt.is_none() {
        // The new events count in addition to what counted before.
        let new = count_events(user_id, new_events);
        if read_receipts.num_unread > u64::MAX - new.num_unread || read_receipts.num_notifications
            > u64::MAX - new.num_notifications || read_receipts.num_mentions > u64::MAX
            - new.num_mentions {
            return None;
        }
    }
    Some(update_read_receipts(user_id, receipt_event, all_events, new_events, read_receipts))
}

/// What counts of the events that a sync brings, as their JSON text says.
pub open spec fn sync_facts(events: Seq<SyncTimelineEventView>, user_id: Seq<char>) -> Seq<
    EventFacts,
> {
    events.map_values(
        |event: SyncTimelineEventView|
            EventFacts {
                id: event_id_field(event.event),
                unread: is_unread_json(event.event, user_id),
                notify: event.push_actions.contains(Action::Notify),
                highlight: event.push_actions.contains(Action::SetTweak(Tweak::Highlight(true))),
            },
    )
}

/// The events of a batch, by their values.
pub open spec fn event_views(events: Seq<SyncTimelineEvent>) -> Seq<SyncTimelineEventView> {
    events.map_values(|event: SyncTimelineEvent| event@)
}

/// The ids of the events that a sync brings, as their JSON text says.
pub open spec fn sync_ids(events: Seq<SyncTimelineEventView>) -> Seq<Option<Seq<char>>> {
    events.map_values(|event: SyncTimelineEventView| event_id_field(event.event))
}

/// The read receipts after a sync, given those before it and the events that were known
/// before it.
pub open spec fn synced(
    before: ReceiptsView,
    previous_events: Seq<SyncTimelineEventView>,
    new_events: Seq<SyncTimelineEventView>,
    receipts: Set<Seq<char>>,
    user_id: Seq<char>,
) -> ReceiptsView {
    updated(
        before,
        sync_facts(previous_events + new_events, user_id),
        sync_facts(new_events, user_id),
        receipts,
    )
}

/// Clones of the events, in their order.
fn cloned(events: &[SyncTimelineEvent]) -> (result: Vec<SyncTimelineEvent>)
    ensures
        event_views(result@) == event_views(events@),
{
    let mut result: Vec<SyncTimelineEvent> = Vec::new();
    let mut i: usize = 0;
    while i < events.len()
        invariant
            i <= events@.len(),
            result@.len() == i,
            forall|j: int| 0 <= j < i ==> (#[trigger] result@[j])@ == events@[j]@,
        decreases events@.len() - i,
    {
        result.push(events[i].clone());
        i += 1;
    }
    assert(event_views(result@) =~= event_views(events@));
    result
}

/// All events of a room: the previous ones, and then the new ones.
fn with_new_events(
    previous_events: Vector<SyncTimelineEvent>,
    new_events: &[SyncTimelineEvent],
) -> (all_events: Vector<SyncTimelineEvent>)
    ensures
        vector_contents(all_events) == vector_contents(previous_events) + event_views(new_events@),
{
    let mut all_events = previous_events;
    vector_extend(&mut all_events, cloned(new_events));
    all_events
}

/// What counts of events, and what their ids are, by their values.
proof fn lemma_sync_facts(
    all_events: Seq<&SyncTimelineEvent>,
    all: Seq<SyncTimelineEventView>,
    new_events: Seq<SyncTimelineEvent>,
    user_id: Seq<char>,
)
    requires
        all_events.map_values(|event: &SyncTimelineEvent| event@) == all,
    ensures
        facts(all_events, user_id) == sync_facts(all, user_id),
        event_ids(all_events) == sync_ids(all),
        facts(new_events, user_id) == sync_facts(event_views(new_events), user_id),
{
    assert forall|i: int| 0 <= i < all.len() implies (#[trigger] all_events[i])@ == all[i] by {
        assert(all_events.map_values(|event: &SyncTimelineEvent| event@)[i] == all[i]);
    }
    assert(facts(all_events, user_id) =~= sync_facts(all, user_id));
    assert(event_ids(all_events) =~= sync_ids(all));
    assert(facts(new_events, user_id) =~= sync_facts(event_views(new_events), user_id));
}

/// Given a set of events coming from sync, for a room, update the [`RoomReadReceipts`]'s counts
/// of unread messages, notifications and highlights in place.
///
/// A provider of previous events may be required to reconcile a read receipt that has been just
/// received for an event that came in a previous sync.
///
/// Returns a boolean indicating if a field changed value in the read receipts.
pub fn compute_notifications<PEP: PreviousEventsProvider>(
    user_id: &str,
    room_id: &str,
    receipt_event: Option<&ReceiptEventContent>,
    previous_events_provider: &PEP,
    new_events: &[SyncTimelineEvent],
    read_receipts: &mut RoomReadReceipts,
) -> (changed: bool)
    requires
        forall|previous: Vector<SyncTimelineEvent>| #[trigger]
            call_ensures(PEP::for_room, (previous_events_provider, room_id), previous)
                ==> counters_suffice(
                old(read_receipts)@,
                sync_facts(vector_contents(previous) + event_views(new_events@), user_id@),
                sync_facts(event_views(new_events@), user_id@),
                new_receipts(receipt_event, user_id@),
            ),
    ensures
        exists|previous: Vector<SyncTimelineEvent>| #[trigger]
            call_ensures(PEP::for_room, (previous_events_provider, room_id), previous)
                && final(read_receipts)@ == synced(
                old(read_receipts)@,
                vector_contents(previous),
                event_views(new_events@),
                new_receipts(receipt_event, user_id@),
                user_id@,
            ) && final(read_receipts)@.pending == old(read_receipts)@.pending.union(
                new_receipts(receipt_event, user_id@),
            ).difference(
                known_ids(sync_ids(vector_contents(previous) + event_views(new_events@))),
            ),
        changed == (final(read_receipts)@ != old(read_receipts)@),
{
    // Index all the events (from event_id to their position in the sync stream).
    let previous_events = previous_events_provider.for_room(room_id);
    let ghost previous = previous_events;
    let all_events = with_new_events(previous_events, new_events);
    let all_events = vector_iter(&all_events);
    proof {
        let all = vector_contents(previous) + event_views(new_events@);
        lemma_sync_facts(all_events@, all, new_events@, user_id@);
    }
    update_read_receipts(user_id, receipt_event, all_events.as_slice(), new_events, read_receipts)
}

/// Whether each counter can count that many more events.
pub open spec fn has_room_for(counts: Counts, events: nat) -> bool {
    counts.plus(Counts { unread: events, notifications: events, mentions: events }).fit()
}

/// As [`compute_notifications`], but for any counters: `None`, with the read receipts left as
/// they were, where a counter cannot hold what there would be to count.
pub fn try_compute_notifications<PEP: PreviousEventsProvider>(
    user_id: &str,
    room_id: &str,
    receipt_event: Option<&ReceiptEventContent>,
    previous_events_provider: &PEP,
    new_events: &[SyncTimelineEvent],
    read_receipts: &mut RoomReadReceipts,
) -> (changed: Option<bool>)
    ensures
        has_room_for(old(read_receipts).counts(), new_events@.len()) ==> changed is Some,
        exists|previous: Vector<SyncTimelineEvent>| #[trigger]
            call_ensures(PEP::for_room, (previous_events_provider, room_id), previous)
                && changed is Some == counters_suffice(
                old(read_receipts)@,
                sync_facts(vector_contents(previous) + event_views(new_events@), user_id@),
                sync_facts(event_views(new_events@), user_id@),
                new_receipts(receipt_event, user_id@),
            ) && (changed is Some ==> final(read_receipts)@ == synced(
                old(read_receipts)@,
                vector_contents(previous),
                event_views(new_events@),
                new_receipts(receipt_event, user_id@),
                user_id@,
            ) && final(read_receipts)@.pending == old(read_receipts)@.pending.union(
                new_receipts(receipt_event, user_id@),
            ).difference(
                known_ids(sync_ids(vector_contents(previous) + event_views(new_events@))),
            )),
        match changed {
            Some(changed) => changed == (final(read_receipts)@ != old(read_receipts)@),
            None => final(read_receipts)@ == old(read_receipts)@,
        },
{
    let max: u64 = u64::MAX - new_events.len() as u64;
    if read_receipts.num_unread <= max && read_receipts.num_notifications <= max
        && read_receipts.num_mentions <= max {
        // Whatever the new events count as, the counters can hold it.
        proof {
            lemma_total_bound(sync_facts(event_views(new_events@), user_id@));
        }
        return Some(
            compute_notifications(
                user_id,
                room_id,
                receipt_event,
                previous_events_provider,
                new_events,
                read_receipts,
            ),
        );
    }
    let previous_events = previous_events_provider.for_room(room_id);
    let ghost previous = previous_events;
    let all_events = with_new_events(previous_events, new_events);
    let all_events = vector_iter(&all_events);
    proof {
        let all = vector_contents(previous) + event_views(new_events@);
        lemma_sync_facts(all_events@, all, new_events@, user_id@);
    }
    try_update_read_receipts(
        user_id,
        receipt_event,
        all_events.as_slice(),
        new_events,
        read_receipts,
    )
}

proof fn lemma_push_to_set(ids: Seq<Seq<char>>, id: Seq<char>)
    ensures
        ids.push(id).to_set() == ids.to_set().insert(id),
{
    assert forall|x: Seq<char>| ids.push(id).to_set().contains(x) == ids.to_set().insert(
        id,
    ).contains(x) by {
        if ids.contains(x) {
            let k = choose|k: int| 0 <= k < ids.len() && ids[k] == x;
            assert(ids.push(id)[k] == x);
        }
        assert(ids.push(id)[ids.len() as int] == id);
    }
    assert(ids.push(id).to_set() =~= ids.to_set().insert(id));
}

proof fn lemma_shrinks(ids: Set<Seq<char>>, known: Set<Seq<char>>)
    requires
        ids.finite(),
    ensures
        (ids.difference(known).len() < ids.len()) == (ids.difference(known) != ids),
{
    let kept = ids.difference(known);
    if kept != ids {
        assert(!(kept =~= ids));
        let id = choose|id: Seq<char>| ids.contains(id) && !kept.contains(id);
        vstd::set_lib::lemma_len_subset(kept, ids.remove(id));
    }
}

/// As a set, the unmatched receipts are the user's receipts for events that are not known.
pub proof fn lemma_unmatched(
    content: Map<Seq<char>, EventReceiptsView>,
    events: Seq<Seq<char>>,
    user_id: Seq<char>,
    known: Set<Seq<char>>,
)
    requires
        events.to_set() == content.dom(),
    ensures
        unmatched(content, events, user_id, known).to_set() == events_read_by(
            content,
            user_id,
        ).difference(known),
{
    let left = unmatched(content, events, user_id, known).to_set();
    let right = events_read_by(content, user_id).difference(known);
    assert forall|id: Seq<char>| left.contains(id) == right.contains(id) by {
        assert forall|i: int| 0 <= i < events.len() implies content.contains_key(
            #[trigger] events[i],
        ) by {
            assert(events.to_set().contains(events[i]));
        }
        lemma_unmatched_contains(content, events, user_id, known, id);
        assert(events.contains(id) == events.to_set().contains(id));
    }
    assert(left =~= right);
}

proof fn lemma_unmatched_contains(
    content: Map<Seq<char>, EventReceiptsView>,
    events: Seq<Seq<char>>,
    user_id: Seq<char>,
    known: Set<Seq<char>>,
    id: Seq<char>,
)
    requires
        forall|i: int| 0 <= i < events.len() ==> content.contains_key(#[trigger] events[i]),
    ensures
        unmatched(content, events, user_id, known).contains(id) == (events.contains(id)
            && has_read(content, id, user_id) && !known.contains(id)),
    decreases events.len(),
{
    if events.len() > 0 {
        let rest = events.drop_last();
        let last = events.last();
        lemma_unmatched_contains(content, rest, user_id, known, id);
        let before = unmatched(content, rest, user_id, known);
        let added = if known.contains(last) {
            Seq::empty()
        } else {
            receipts_for(content, last, user_id)
        };
        assert(events =~= rest.push(last));
        assert(events.contains(id) == (rest.contains(id) || id == last)) by {
            if rest.contains(id) {
                let k = choose|k: int| 0 <= k < rest.len() && rest[k] == id;
                assert(events[k] == id);
            }
            assert(events[rest.len() as int] == last);
        }
        assert(added.contains(id) == (id == last && has_read(content, last, user_id)
            && !known.contains(last))) by {
            assert(content.contains_key(events[rest.len() as int]));
            if !known.contains(last) && has_read(content, last, user_id) {
                assert(added[0] == last);
            }
        }
        assert((before + added).contains(id) == (before.contains(id) || added.contains(id))) by {
            if before.contains(id) {
                let k = choose|k: int| 0 <= k < before.len() && before[k] == id;
                assert((before + added)[k] == id);
            }
            if added.contains(id) {
                let k = choose|k: int| 0 <= k < added.len() && added[k] == id;
                assert((before + added)[before.len() + k] == id);
            }
        }
    }
}

} // verus!
