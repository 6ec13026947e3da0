//! Laws that hold of the computation as a whole.
use vstd::prelude::*;

#[allow(unused_imports)]
use crate::model::{
    beats, best, counters_suffice, first_position, ids, is_best, is_first, is_last, known_ids,
    lemma_best_exists, lemma_best_unique, lemma_first_position, lemma_sync_index, lemma_total_add,
    lemma_total_empty, position, sync_index, total, updated, Counts, EventFacts, ReceiptsView,
};
#[allow(unused_imports)]
use crate::notifications::{sync_facts, sync_ids, synced};
#[allow(unused_imports)]
use crate::receipt::{
    events_read_by, has_read, with_receipt, EventReceiptsView, ReceiptThread, ReceiptType,
};
#[allow(unused_imports)]
use crate::timeline::{event_id_field, Action, SyncTimelineEventView, Tweak};
#[allow(unused_imports)]
use crate::unread::{
    deserialized_event, is_unread, is_unread_json, DeserializedEventView, EventBodyView,
};

verus! {

/// The read receipts say of `events`, all known events of a room, what they should: what counts
/// is what comes after the event of the latest active receipt, or all of it where there is no
/// such receipt.
pub open spec fn is_accurate(receipts: ReceiptsView, events: Seq<EventFacts>) -> bool {
    match receipts.latest_active {
        Some(id) => {
            &&& ids(events).contains(Some(id))
            &&& receipts.counts == total(events.skip(first_position(ids(events), id) + 1))
        },
        None => receipts.counts == total(events),
    }
}

/// A room of which nothing is known yet has accurate read receipts: those by default.
pub proof fn law_default_is_accurate(receipts: ReceiptsView)
    requires
        receipts.counts == (Counts { unread: 0, notifications: 0, mentions: 0 }),
        receipts.latest_active is None,
    ensures
        is_accurate(receipts, Seq::empty()),
{
    lemma_total_empty();
}

/// Every sync keeps the read receipts accurate, whatever events and receipts it brings, as long
/// as the earlier events stay known.
pub proof fn law_syncs_keep_receipts_accurate(
    before: ReceiptsView,
    previous: Seq<EventFacts>,
    new: Seq<EventFacts>,
    receipts: Set<Seq<char>>,
)
    requires
        is_accurate(before, previous),
    ensures
        is_accurate(updated(before, previous + new, new, receipts), previous + new),
{
    let all = previous + new;
    let index = sync_index(ids(all));
    let candidates = before.pending.union(receipts);
    lemma_sync_index(ids(all));
    assert(ids(all) =~= ids(previous) + ids(new));
    match best(index, candidates, position(index, before.latest_active)) {
        Some(id) => {
            assert(index.contains_key(id));
        },
        None => match before.latest_active {
            Some(id) => {
                lemma_first_position(ids(previous), id);
                let first = first_position(ids(previous), id);
                assert(ids(all)[first] == Some(id));
                assert(ids(all).contains(Some(id)));
                assert(is_first(ids(all), id, first));
                lemma_first_position(ids(all), id);
                assert(all.skip(first + 1) =~= previous.skip(first + 1) + new);
                lemma_total_add(previous.skip(first + 1), new);
            },
            None => {
                lemma_total_add(previous, new);
            },
        },
    }
}

/// The active receipt never moves backwards in sync order: it stays as it is, or moves to the
/// event of one of the receipts, which is known and comes later than the event of the earlier
/// one, where that is known.
pub proof fn law_active_receipt_moves_forward(
    before: ReceiptsView,
    all: Seq<EventFacts>,
    new: Seq<EventFacts>,
    receipts: Set<Seq<char>>,
)
    ensures
        ({
            let index = sync_index(ids(all));
            let after = updated(before, all, new, receipts);
            ||| after.latest_active == before.latest_active
            ||| {
                &&& after.latest_active matches Some(id)
                &&& before.pending.union(receipts).contains(id)
                &&& index.contains_key(id)
                &&& beats(index[id], position(index, before.latest_active))
            }
        }),
{
}

/// The latest of the receipts for known events wins, whatever order they come in: no such
/// receipt is for a later event than the active one is afterwards.
pub proof fn law_latest_receipt_wins(
    before: ReceiptsView,
    all: Seq<EventFacts>,
    new: Seq<EventFacts>,
    receipts: Set<Seq<char>>,
    id: Seq<char>,
)
    requires
        before.pending.union(receipts).contains(id),
        ids(all).contains(Some(id)),
    ensures
        ({
            let index = sync_index(ids(all));
            let after = updated(before, all, new, receipts);
            &&& after.latest_active matches Some(active)
            &&& index.contains_key(active)
            &&& index[id] <= index[active]
        }),
{
    let index = sync_index(ids(all));
    let candidates = before.pending.union(receipts);
    let floor = position(index, before.latest_active);
    lemma_sync_index(ids(all));
    if best(index, candidates, floor) is None {
        if beats(index[id], floor) {
            lemma_best_exists(index, candidates, floor, id, ids(all).len() as int);
        }
    }
}

/// No receipt is lost, and none is kept once its event is known: what is pending after a sync
/// are exactly the receipts, old and new, whose event is not known.
pub proof fn law_pending_receipts_are_the_unmatched_ones(
    before: ReceiptsView,
    all: Seq<EventFacts>,
    new: Seq<EventFacts>,
    receipts: Set<Seq<char>>,
    id: Seq<char>,
)
    ensures
        updated(before, all, new, receipts).pending.contains(id) <==> (before.pending.contains(id)
            || receipts.contains(id)) && !ids(all).contains(Some(id)),
{
    lemma_sync_index(ids(all));
}

/// The same of a sync's events as they come: what is pending after it are the receipts, old and
/// new, without those for the events that were known before it or came with it.
pub proof fn law_sync_leaves_the_unmatched_receipts_pending(
    before: ReceiptsView,
    previous_events: Seq<SyncTimelineEventView>,
    new_events: Seq<SyncTimelineEventView>,
    receipts: Set<Seq<char>>,
    user_id: Seq<char>,
)
    ensures
        synced(before, previous_events, new_events, receipts, user_id).pending
            == before.pending.union(receipts).difference(
            known_ids(sync_ids(previous_events + new_events)),
        ),
{
    let all = previous_events + new_events;
    assert(ids(sync_facts(all, user_id)) =~= sync_ids(all));
    assert(sync_index(sync_ids(all)).dom() =~= known_ids(sync_ids(all)));
}

/// Where a receipt becomes the active one, it does not matter which of the known events came
/// with this sync, nor what counted before.
pub proof fn law_new_active_receipt_starts_afresh(
    before: ReceiptsView,
    counts: Counts,
    all: Seq<EventFacts>,
    new: Seq<EventFacts>,
    other_new: Seq<EventFacts>,
    receipts: Set<Seq<char>>,
)
    requires
        updated(before, all, new, receipts).latest_active != before.latest_active,
    ensures
        updated(before, all, new, receipts) == updated(
            ReceiptsView { counts, ..before },
            all,
            other_new,
            receipts,
        ),
{
}

/// Receiving the same receipts again, with no new events, changes nothing.
pub proof fn law_same_receipts_again_change_nothing(
    before: ReceiptsView,
    all: Seq<EventFacts>,
    new: Seq<EventFacts>,
    receipts: Set<Seq<char>>,
)
    ensures
        ({
            let after = updated(before, all, new, receipts);
            updated(after, all, Seq::empty(), receipts) == after
        }),
{
    law_same_receipts_again_count_new_events(before, all, new, receipts, Seq::empty());
    lemma_total_empty();
    assert(all + Seq::<EventFacts>::empty() =~= all);
}

/// Receiving the same receipts again, along with newer events, only counts the newer events.
/// What the receipts refer to may be among the newer events only if it was known before, and
/// does not come later than the event of the active receipt.
pub proof fn law_same_receipts_again_count_new_events(
    before: ReceiptsView,
    all: Seq<EventFacts>,
    new: Seq<EventFacts>,
    receipts: Set<Seq<char>>,
    newer: Seq<EventFacts>,
)
    requires
        ({
            let after = updated(before, all, new, receipts);
            let index = sync_index(ids(all + newer));
            forall|id: Seq<char>| #[trigger]
                before.pending.union(receipts).contains(id) && ids(newer).contains(Some(id))
                    ==> ids(all).contains(Some(id)) && !beats(
                    index[id],
                    position(index, after.latest_active),
                )
        }),
    ensures
        ({
            let after = updated(before, all, new, receipts);
            updated(after, all + newer, newer, receipts) == (ReceiptsView {
                counts: after.counts.plus(total(newer)),
                ..after
            })
        }),
{
    let index = sync_index(ids(all));
    let candidates = before.pending.union(receipts);
    let floor = position(index, before.latest_active);
    let after = updated(before, all, new, receipts);
    let later = all + newer;
    let later_index = sync_index(ids(later));
    let later_candidates = after.pending.union(receipts);
    let later_floor = position(later_index, after.latest_active);
    lemma_sync_index(ids(all));
    lemma_sync_index(ids(later));
    assert(ids(later) =~= ids(all) + ids(newer));
    assert forall|id: Seq<char>| candidates.contains(id) implies (
    #[trigger] later_index.contains_key(id) <==> index.contains_key(id)) by {
        if ids(newer).contains(Some(id)) {
            lemma_position_grows(ids(all), ids(newer), id);
        } else {
            lemma_position_stays(ids(all), ids(newer), id);
        }
    }
    assert forall|id: Seq<char>| !is_best(later_index, later_candidates, later_floor, id) by {
        if is_best(later_index, later_candidates, later_floor, id) {
            assert(candidates.contains(id));
            assert(index.contains_key(id));
            assert(!ids(newer).contains(Some(id)));
            lemma_position_stays(ids(all), ids(newer), id);
            match best(index, candidates, floor) {
                Some(active) => {
                    assert(is_best(index, candidates, floor, active));
                    lemma_position_grows(ids(all), ids(newer), active);
                },
                None => {
                    if beats(index[id], floor) {
                        lemma_best_exists(index, candidates, floor, id, ids(all).len() as int);
                    }
                    let active = before.latest_active->0;
                    assert(index.contains_key(active));
                    lemma_position_grows(ids(all), ids(newer), active);
                },
            }
        }
    }
    assert(later_candidates.difference(later_index.dom()) =~= after.pending);
}

/// Events that come after do not change the position of an event that is not among them.
proof fn lemma_position_stays(
    known: Seq<Option<Seq<char>>>,
    newer: Seq<Option<Seq<char>>>,
    id: Seq<char>,
)
    requires
        !newer.contains(Some(id)),
    ensures
        sync_index(known + newer).contains_key(id) <==> sync_index(known).contains_key(id),
        sync_index(known).contains_key(id) ==> sync_index(known + newer)[id] == sync_index(
            known,
        )[id],
{
    let later = known + newer;
    lemma_sync_index(known);
    lemma_sync_index(later);
    if known.contains(Some(id)) {
        let pos = sync_index(known)[id];
        assert(is_last(known, id, pos));
        assert(later[pos] == Some(id));
        assert forall|i: int| pos < i < later.len() implies later[i] != Some(id) by {
            if i >= known.len() {
                assert(newer.contains(newer[i - known.len()]));
            }
        }
        let other = sync_index(later)[id];
        assert(is_last(later, id, other));
        assert(!(pos < other) && !(other < pos));
    } else if later.contains(Some(id)) {
        let i = choose|i: int| 0 <= i < later.len() && later[i] == Some(id);
        if i < known.len() {
            assert(known[i] == Some(id));
        } else {
            assert(newer[i - known.len()] == Some(id));
        }
    }
}

/// Events that come after do not lower the position of a known event.
proof fn lemma_position_grows(
    known: Seq<Option<Seq<char>>>,
    newer: Seq<Option<Seq<char>>>,
    id: Seq<char>,
)
    requires
        sync_index(known).contains_key(id),
    ensures
        sync_index(known + newer).contains_key(id),
        sync_index(known + newer)[id] >= sync_index(known)[id],
{
    let later = known + newer;
    lemma_sync_index(known);
    lemma_sync_index(later);
    let pos = sync_index(known)[id];
    assert(is_last(known, id, pos));
    assert(later[pos] == Some(id));
    assert(later.contains(Some(id)));
    assert(is_last(later, id, sync_index(later)[id]));
}

/// A receipt that arrives before its event takes effect when the event comes: whether it came
/// early, or only with the later sync, the outcome of the later sync is the same.
pub proof fn law_early_receipt_takes_effect_later(
    before: ReceiptsView,
    all: Seq<EventFacts>,
    new: Seq<EventFacts>,
    receipts: Set<Seq<char>>,
    later_all: Seq<EventFacts>,
    later_new: Seq<EventFacts>,
)
    requires
        forall|id: Seq<char>| #[trigger] receipts.contains(id) ==> !ids(all).contains(Some(id)),
    ensures
        updated(updated(before, all, new, receipts), later_all, later_new, Set::empty())
            == updated(updated(before, all, new, Set::empty()), later_all, later_new, receipts),
{
    let index = sync_index(ids(all));
    let floor = position(index, before.latest_active);
    let early = before.pending.union(receipts);
    let late = before.pending.union(Set::empty());
    lemma_sync_index(ids(all));
    assert forall|id: Seq<char>| is_best(index, early, floor, id) == is_best(
        index,
        late,
        floor,
        id,
    ) by {
        assert(early.contains(id) && index.contains_key(id) <==> late.contains(id)
            && index.contains_key(id));
        if is_best(index, late, floor, id) {
            assert forall|other: Seq<char>|
                early.contains(other) && #[trigger] index.contains_key(
                    other,
                ) implies index[other] <= index[id] by {
                assert(late.contains(other));
            }
        }
        if is_best(index, early, floor, id) {
            assert forall|other: Seq<char>|
                late.contains(other) && #[trigger] index.contains_key(
                    other,
                ) implies index[other] <= index[id] by {
                assert(early.contains(other));
            }
        }
    }
    match best(index, early, floor) {
        Some(id) => {
            assert(is_best(index, late, floor, id));
            lemma_best_unique(index, late, floor, id);
        },
        None => {
            assert(best(index, late, floor) is None);
        },
    }
    let after_early = updated(before, all, new, receipts);
    let after_late = updated(before, all, new, Set::empty());
    assert(after_early.pending.union(Set::empty()) =~= after_late.pending.union(receipts));
}

/// Without receipts, events count the same whether they come in one sync or in two.
pub proof fn law_batches_add_up(
    before: ReceiptsView,
    previous: Seq<EventFacts>,
    first: Seq<EventFacts>,
    second: Seq<EventFacts>,
)
    requires
        before.pending == Set::<Seq<char>>::empty(),
    ensures
        updated(
            updated(before, previous + first, first, Set::empty()),
            previous + first + second,
            second,
            Set::empty(),
        ) == updated(before, previous + (first + second), first + second, Set::empty()),
{
    let none = Set::<Seq<char>>::empty();
    lemma_total_add(first, second);
    assert(previous + first + second =~= previous + (first + second));
    let one = updated(before, previous + first, first, none);
    assert(before.pending.union(none) =~= none);
    assert(one.pending =~= none);
    assert(one.pending.union(none) =~= none);
    assert(updated(
        one,
        previous + first + second,
        second,
        none,
    ).pending =~= updated(before, previous + (first + second), first + second, none).pending);
}

/// One's own events never mark a room as unread.
pub proof fn law_own_events_are_read(event: DeserializedEventView)
    ensures
        !is_unread(event, event.sender),
{
}

/// State events, redacted events and edits never mark a room as unread, for any user.
pub proof fn law_state_redactions_and_edits_are_read(
    event: DeserializedEventView,
    user_id: Seq<char>,
)
    requires
        match event.body {
            EventBodyView::State => true,
            EventBodyView::MessageLike { content: None, .. } => true,
            EventBodyView::MessageLike { content: Some(content), .. } => content.is_replacement
                || content.is_poll_replacement || content.is_unstable_poll_replacement,
        },
    ensures
        !is_unread(event, user_id),
{
}

/// The receipts of other users have no say in what the user has read.
pub proof fn law_receipts_of_others_are_ignored(
    content: Map<Seq<char>, EventReceiptsView>,
    event_id: Seq<char>,
    receipt_type: ReceiptType,
    other_user_id: Seq<char>,
    thread: ReceiptThread,
    user_id: Seq<char>,
)
    requires
        other_user_id != user_id,
    ensures
        events_read_by(
            with_receipt(content, event_id, receipt_type, other_user_id, thread),
            user_id,
        ) == events_read_by(content, user_id),
{
    let after = with_receipt(content, event_id, receipt_type, other_user_id, thread);
    assert(events_read_by(after, user_id) =~= events_read_by(content, user_id));
}

/// A receipt for a thread has no say in what the user has read of the timeline, unless it takes
/// the place of the only one that said that the user has read the event.
pub proof fn law_thread_receipts_are_ignored(
    content: Map<Seq<char>, EventReceiptsView>,
    event_id: Seq<char>,
    receipt_type: ReceiptType,
    user_id: Seq<char>,
    thread: ReceiptThread,
)
    requires
        !thread.applies_to_timeline(),
        has_read(content, event_id, user_id) ==> {
            ||| receipt_type != ReceiptType::Read && content[event_id].read_by(
                ReceiptType::Read,
                user_id,
            )
            ||| receipt_type != ReceiptType::ReadPrivate && content[event_id].read_by(
                ReceiptType::ReadPrivate,
                user_id,
            )
        },
    ensures
        events_read_by(
            with_receipt(content, event_id, receipt_type, user_id, thread),
            user_id,
        ) == events_read_by(content, user_id),
{
    let after = with_receipt(content, event_id, receipt_type, user_id, thread);
    assert(events_read_by(after, user_id) =~= events_read_by(content, user_id));
}

/// A receipt of another type than a read receipt, public or private, has no say in what the user
/// has read, whatever thread it applies to and whoever's it is.
pub proof fn law_receipts_of_other_types_are_ignored(
    content: Map<Seq<char>, EventReceiptsView>,
    event_id: Seq<char>,
    user_id: Seq<char>,
    sender_id: Seq<char>,
    thread: ReceiptThread,
)
    ensures
        events_read_by(
            with_receipt(content, event_id, ReceiptType::Custom, sender_id, thread),
            user_id,
        ) == events_read_by(content, user_id),
{
    let after = with_receipt(content, event_id, ReceiptType::Custom, sender_id, thread);
    assert(events_read_by(after, user_id) =~= events_read_by(content, user_id));
}

/// A read receipt of the user that applies to the timeline, public or private, says that the user
/// has read its event, and nothing else.
pub proof fn law_timeline_receipts_are_heeded(
    content: Map<Seq<char>, EventReceiptsView>,
    event_id: Seq<char>,
    receipt_type: ReceiptType,
    user_id: Seq<char>,
    thread: ReceiptThread,
)
    requires
        receipt_type != ReceiptType::Custom,
        thread.applies_to_timeline(),
    ensures
        events_read_by(
            with_receipt(content, event_id, receipt_type, user_id, thread),
            user_id,
        ) == events_read_by(content, user_id).insert(event_id),
{
    let after = with_receipt(content, event_id, receipt_type, user_id, thread);
    assert(events_read_by(after, user_id) =~= events_read_by(content, user_id).insert(event_id));
}

// What a sync does, by the known events and the receipts alone.

/// The active receipt changes only to one of the receipts, old or new, and only to one whose
/// event is known.
pub proof fn law_active_receipt_is_one_of_the_receipts(
    before: ReceiptsView,
    all: Seq<EventFacts>,
    new: Seq<EventFacts>,
    receipts: Set<Seq<char>>,
)
    requires
        updated(before, all, new, receipts).latest_active != before.latest_active,
    ensures
        ({
            let after = updated(before, all, new, receipts);
            &&& after.latest_active matches Some(id)
            &&& before.pending.contains(id) || receipts.contains(id)
            &&& exists|p: int| 0 <= p < all.len() && (#[trigger] all[p]).id == Some(id)
        }),
{
    lemma_sync_index(ids(all));
    let index = sync_index(ids(all));
    let id = updated(before, all, new, receipts).latest_active->0;
    assert(index.contains_key(id));
    assert(is_last(ids(all), id, index[id]));
    assert(all[index[id]].id == Some(id));
}

/// Of the receipts for known events, old and new, none is for an event that comes after that of
/// the active receipt: where the event of a receipt stands, or later, stands the event of the
/// active one.
pub proof fn law_no_receipt_is_later_than_the_active_one(
    before: ReceiptsView,
    all: Seq<EventFacts>,
    new: Seq<EventFacts>,
    receipts: Set<Seq<char>>,
    id: Seq<char>,
    at: int,
)
    requires
        before.pending.contains(id) || receipts.contains(id),
        0 <= at < all.len(),
        all[at].id == Some(id),
    ensures
        ({
            let after = updated(before, all, new, receipts);
            &&& after.latest_active is Some
            &&& exists|p: int|
                at <= p < all.len() && (#[trigger] all[p]).id == after.latest_active
        }),
{
    let index = sync_index(ids(all));
    let after = updated(before, all, new, receipts);
    assert(ids(all)[at] == Some(id));
    law_latest_receipt_wins(before, all, new, receipts, id);
    lemma_sync_index(ids(all));
    let active = after.latest_active->0;
    assert(is_last(ids(all), id, index[id]));
    assert(is_last(ids(all), active, index[active]));
    assert(at <= index[id]);
    assert(all[index[active]].id == Some(active));
}

/// The active receipt changes only to one for a later event: wherever the event of the earlier
/// one stands among the known events, that of the new one stands after it.
pub proof fn law_active_receipt_changes_only_to_a_later_one(
    before: ReceiptsView,
    all: Seq<EventFacts>,
    new: Seq<EventFacts>,
    receipts: Set<Seq<char>>,
    at: int,
)
    requires
        updated(before, all, new, receipts).latest_active != before.latest_active,
        before.latest_active is Some,
        0 <= at < all.len(),
        all[at].id == before.latest_active,
    ensures
        exists|p: int|
            at < p < all.len() && (#[trigger] all[p]).id == updated(
                before,
                all,
                new,
                receipts,
            ).latest_active,
{
    let index = sync_index(ids(all));
    lemma_sync_index(ids(all));
    let old_id = before.latest_active->0;
    let id = updated(before, all, new, receipts).latest_active->0;
    assert(ids(all)[at] == Some(old_id));
    assert(index.contains_key(old_id) && index.contains_key(id));
    assert(is_last(ids(all), old_id, index[old_id]));
    assert(is_last(ids(all), id, index[id]));
    assert(at <= index[old_id] < index[id]);
    assert(all[index[id]].id == Some(id));
}

/// A receipt, old or new, is pending after a sync exactly if no known event has its id.
pub proof fn law_receipts_wait_for_their_events(
    before: ReceiptsView,
    all: Seq<EventFacts>,
    new: Seq<EventFacts>,
    receipts: Set<Seq<char>>,
    id: Seq<char>,
)
    ensures
        updated(before, all, new, receipts).pending.contains(id) <==> (before.pending.contains(id)
            || receipts.contains(id)) && forall|i: int|
            0 <= i < all.len() ==> (#[trigger] all[i]).id != Some(id),
{
    lemma_sync_index(ids(all));
    if ids(all).contains(Some(id)) {
        let i = choose|i: int| 0 <= i < ids(all).len() && ids(all)[i] == Some(id);
        assert(all[i].id == Some(id));
    }
    assert forall|i: int| 0 <= i < all.len() && !ids(all).contains(Some(id)) implies (
    #[trigger] all[i]).id != Some(id) by {
        assert(ids(all)[i] == all[i].id);
    }
}

/// Whenever the active receipt changes, what counts afterwards are the known events after the
/// first one with the id that the new active receipt refers to: all of them, and nothing else.
/// What counted before, which receipt was active and whether its event is known, do not matter.
pub proof fn law_new_active_receipt_counts_what_follows_its_event(
    before: ReceiptsView,
    all: Seq<EventFacts>,
    new: Seq<EventFacts>,
    receipts: Set<Seq<char>>,
    first: int,
)
    requires
        updated(before, all, new, receipts).latest_active != before.latest_active,
        0 <= first < all.len(),
        all[first].id == updated(before, all, new, receipts).latest_active,
        forall|i: int|
            0 <= i < first ==> (#[trigger] all[i]).id != updated(
                before,
                all,
                new,
                receipts,
            ).latest_active,
    ensures
        ({
            let after = updated(before, all, new, receipts);
            let following = all.subrange(first + 1, all.len() as int);
            &&& after.counts.unread == following.filter(|event: EventFacts| event.unread).len()
            &&& after.counts.notifications == following.filter(
                |event: EventFacts| event.notify,
            ).len()
            &&& after.counts.mentions == following.filter(
                |event: EventFacts| event.highlight,
            ).len()
        }),
{
    let id = updated(before, all, new, receipts).latest_active->0;
    assert(ids(all)[first] == Some(id));
    assert forall|i: int| 0 <= i < first implies ids(all)[i] != Some(id) by {
        assert(ids(all)[i] == all[i].id);
    }
    assert(is_first(ids(all), id, first));
    lemma_first_position(ids(all), id);
    assert(all.skip(first + 1) =~= all.subrange(first + 1, all.len() as int));
}

/// Whenever the active receipt stays, each counter grows by the number of this sync's events that
/// count as that. What else is known does not matter.
pub proof fn law_without_a_new_active_receipt_new_events_add_up(
    before: ReceiptsView,
    all: Seq<EventFacts>,
    new: Seq<EventFacts>,
    receipts: Set<Seq<char>>,
)
    requires
        updated(before, all, new, receipts).latest_active == before.latest_active,
    ensures
        ({
            let after = updated(before, all, new, receipts);
            &&& after.counts.unread == before.counts.unread + new.filter(
                |event: EventFacts| event.unread,
            ).len()
            &&& after.counts.notifications == before.counts.notifications + new.filter(
                |event: EventFacts| event.notify,
            ).len()
            &&& after.counts.mentions == before.counts.mentions + new.filter(
                |event: EventFacts| event.highlight,
            ).len()
        }),
{
    lemma_sync_index(ids(all));
}

/// The counters suffice exactly if they can hold the counts after the sync, or if a new active
/// receipt has them start afresh.
pub proof fn law_counters_suffice_for_what_they_hold(
    before: ReceiptsView,
    all: Seq<EventFacts>,
    new: Seq<EventFacts>,
    receipts: Set<Seq<char>>,
)
    ensures
        ({
            let after = updated(before, all, new, receipts);
            counters_suffice(before, all, new, receipts) <==> {
                ||| after.latest_active != before.latest_active
                ||| {
                    &&& after.counts.unread <= u64::MAX
                    &&& after.counts.notifications <= u64::MAX
                    &&& after.counts.mentions <= u64::MAX
                }
            }
        }),
{
    lemma_sync_index(ids(all));
}

// The same of the events as a sync brings them.

/// How many of the events, mapped one by one, have a property.
proof fn lemma_filter_mapped<A, B>(
    events: Seq<A>,
    map: spec_fn(A) -> B,
    property: spec_fn(B) -> bool,
    mapped_property: spec_fn(A) -> bool,
)
    requires
        forall|event: A| #[trigger] mapped_property(event) == property(map(event)),
    ensures
        events.map_values(map).filter(property).len() == events.filter(mapped_property).len(),
    decreases events.len(),
{
    reveal(Seq::filter);
    if events.len() > 0 {
        assert(events.map_values(map).drop_last() =~= events.drop_last().map_values(map));
        lemma_filter_mapped(events.drop_last(), map, property, mapped_property);
        assert(mapped_property(events.last()) == property(map(events.last())));
    }
}

/// How many events a sync's facts count, by their texts and push actions.
proof fn lemma_sync_counts(events: Seq<SyncTimelineEventView>, user_id: Seq<char>)
    ensures
        sync_facts(events, user_id).filter(|event: EventFacts| event.unread).len() == events.filter(
            |event: SyncTimelineEventView|
                deserialized_event(event.event) matches Some(event) && is_unread(event, user_id),
        ).len(),
        sync_facts(events, user_id).filter(|event: EventFacts| event.notify).len() == events.filter(
            |event: SyncTimelineEventView| event.push_actions.contains(Action::Notify),
        ).len(),
        sync_facts(events, user_id).filter(|event: EventFacts| event.highlight).len()
            == events.filter(
            |event: SyncTimelineEventView|
                event.push_actions.contains(Action::SetTweak(Tweak::Highlight(true))),
        ).len(),
{
    let map = |event: SyncTimelineEventView|
        EventFacts {
            id: event_id_field(event.event),
            unread: is_unread_json(event.event, user_id),
            notify: event.push_actions.contains(Action::Notify),
            highlight: event.push_actions.contains(Action::SetTweak(Tweak::Highlight(true))),
        };
    assert(events.map_values(map) =~= sync_facts(events, user_id));
    lemma_filter_mapped(
        events,
        map,
        |event: EventFacts| event.unread,
        |event: SyncTimelineEventView|
            deserialized_event(event.event) matches Some(event) && is_unread(event, user_id),
    );
    lemma_filter_mapped(
        events,
        map,
        |event: EventFacts| event.notify,
        |event: SyncTimelineEventView| event.push_actions.contains(Action::Notify),
    );
    lemma_filter_mapped(
        events,
        map,
        |event: EventFacts| event.highlight,
        |event: SyncTimelineEventView|
            event.push_actions.contains(Action::SetTweak(Tweak::Highlight(true))),
    );
}

/// After a sync by which the active receipt changed, what counts are the events, known before or
/// new, that follow the first one with the id that the active receipt refers to.
pub proof fn law_sync_with_a_new_active_receipt(
    before: ReceiptsView,
    previous_events: Seq<SyncTimelineEventView>,
    new_events: Seq<SyncTimelineEventView>,
    receipts: Set<Seq<char>>,
    user_id: Seq<char>,
    first: int,
)
    requires
        ({
            let after = synced(before, previous_events, new_events, receipts, user_id);
            let all = previous_events + new_events;
            &&& after.latest_active != before.latest_active
            &&& 0 <= first < all.len()
            &&& event_id_field(all[first].event) == after.latest_active
            &&& forall|i: int|
                0 <= i < first ==> event_id_field((#[trigger] all[i]).event) != after.latest_active
        }),
    ensures
        ({
            let after = synced(before, previous_events, new_events, receipts, user_id);
            let all = previous_events + new_events;
            let following = all.subrange(first + 1, all.len() as int);
            &&& after.counts.unread == following.filter(
                |event: SyncTimelineEventView|
                    deserialized_event(event.event) matches Some(event) && is_unread(
                        event,
                        user_id,
                    ),
            ).len()
            &&& after.counts.notifications == following.filter(
                |event: SyncTimelineEventView| event.push_actions.contains(Action::Notify),
            ).len()
            &&& after.counts.mentions == following.filter(
                |event: SyncTimelineEventView|
                    event.push_actions.contains(Action::SetTweak(Tweak::Highlight(true))),
            ).len()
        }),
{
    let all = previous_events + new_events;
    let known = sync_facts(all, user_id);
    let new = sync_facts(new_events, user_id);
    assert(forall|i: int|
        0 <= i < all.len() ==> (#[trigger] known[i]).id == event_id_field(all[i].event));
    law_new_active_receipt_counts_what_follows_its_event(before, known, new, receipts, first);
    let following = all.subrange(first + 1, all.len() as int);
    assert(known.subrange(first + 1, known.len() as int) =~= sync_facts(following, user_id));
    lemma_sync_counts(following, user_id);
}

/// After a sync by which the active receipt did not change, the new events count in addition to
/// what counted before, and the events that were known before do not.
pub proof fn law_sync_without_a_new_active_receipt(
    before: ReceiptsView,
    previous_events: Seq<SyncTimelineEventView>,
    new_events: Seq<SyncTimelineEventView>,
    receipts: Set<Seq<char>>,
    user_id: Seq<char>,
)
    requires
        synced(before, previous_events, new_events, receipts, user_id).latest_active
            == before.latest_active,
    ensures
        ({
            let after = synced(before, previous_events, new_events, receipts, user_id);
            &&& after.counts.unread == before.counts.unread + new_events.filter(
                |event: SyncTimelineEventView|
                    deserialized_event(event.event) matches Some(event) && is_unread(
                        event,
                        user_id,
                    ),
            ).len()
            &&& after.counts.notifications == before.counts.notifications + new_events.filter(
                |event: SyncTimelineEventView| event.push_actions.contains(Action::Notify),
            ).len()
            &&& after.counts.mentions == before.counts.mentions + new_events.filter(
                |event: SyncTimelineEventView|
                    event.push_actions.contains(Action::SetTweak(Tweak::Highlight(true))),
            ).len()
        }),
{
    law_without_a_new_active_receipt_new_events_add_up(
        before,
        sync_facts(previous_events + new_events, user_id),
        sync_facts(new_events, user_id),
        receipts,
    );
    lemma_sync_counts(new_events, user_id);
}

/// By a sync, the active receipt changes only to one of the receipts whose event is known, and to
/// a later one than before.
pub proof fn law_sync_moves_the_active_receipt_forward(
    before: ReceiptsView,
    previous_events: Seq<SyncTimelineEventView>,
    new_events: Seq<SyncTimelineEventView>,
    receipts: Set<Seq<char>>,
    user_id: Seq<char>,
)
    requires
        synced(before, previous_events, new_events, receipts, user_id).latest_active
            != before.latest_active,
    ensures
        ({
            let after = synced(before, previous_events, new_events, receipts, user_id);
            let all = previous_events + new_events;
            &&& after.latest_active matches Some(id)
            &&& before.pending.contains(id) || receipts.contains(id)
            &&& exists|p: int|
                0 <= p < all.len() && event_id_field((#[trigger] all[p]).event) == Some(id)
            &&& forall|at: int|
                0 <= at < all.len() && before.latest_active is Some && event_id_field(
                    (#[trigger] all[at]).event,
                ) == before.latest_active ==> exists|p: int|
                    at < p < all.len() && event_id_field((#[trigger] all[p]).event)
                        == after.latest_active
        }),
{
    let all = previous_events + new_events;
    let known = sync_facts(all, user_id);
    let new = sync_facts(new_events, user_id);
    let after = synced(before, previous_events, new_events, receipts, user_id);
    law_active_receipt_is_one_of_the_receipts(before, known, new, receipts);
    let p = choose|p: int| 0 <= p < known.len() && (#[trigger] known[p]).id == after.latest_active;
    assert(event_id_field(all[p].event) == after.latest_active);
    assert forall|at: int|
        0 <= at < all.len() && before.latest_active is Some && event_id_field(
            (#[trigger] all[at]).event,
        ) == before.latest_active implies exists|p: int|
        at < p < all.len() && event_id_field((#[trigger] all[p]).event) == after.latest_active by {
        assert(known[at].id == before.latest_active);
        law_active_receipt_changes_only_to_a_later_one(before, known, new, receipts, at);
        let p = choose|p: int|
            at < p < known.len() && (#[trigger] known[p]).id == after.latest_active;
        assert(event_id_field(all[p].event) == after.latest_active);
    }
}

/// After a sync, no receipt for a known event is for a later one than the active receipt.
pub proof fn law_sync_leaves_no_later_receipt(
    before: ReceiptsView,
    previous_events: Seq<SyncTimelineEventView>,
    new_events: Seq<SyncTimelineEventView>,
    receipts: Set<Seq<char>>,
    user_id: Seq<char>,
    id: Seq<char>,
    at: int,
)
    requires
        before.pending.contains(id) || receipts.contains(id),
        0 <= at < (previous_events + new_events).len(),
        event_id_field((previous_events + new_events)[at].event) == Some(id),
    ensures
        ({
            let after = synced(before, previous_events, new_events, receipts, user_id);
            let all = previous_events + new_events;
            &&& after.latest_active is Some
            &&& exists|p: int|
                at <= p < all.len() && event_id_field((#[trigger] all[p]).event)
                    == after.latest_active
        }),
{
    let all = previous_events + new_events;
    let known = sync_facts(all, user_id);
    let new = sync_facts(new_events, user_id);
    let after = synced(before, previous_events, new_events, receipts, user_id);
    assert(known[at].id == Some(id));
    law_no_receipt_is_later_than_the_active_one(before, known, new, receipts, id, at);
    let p = choose|p: int|
        at <= p < known.len() && (#[trigger] known[p]).id == after.latest_active;
    assert(event_id_field(all[p].event) == after.latest_active);
}

/// After a sync, a receipt, old or new, is pending exactly if no event, known before or new, has
/// its id.
pub proof fn law_sync_keeps_receipts_for_events_to_come(
    before: ReceiptsView,
    previous_events: Seq<SyncTimelineEventView>,
    new_events: Seq<SyncTimelineEventView>,
    receipts: Set<Seq<char>>,
    user_id: Seq<char>,
    id: Seq<char>,
)
    ensures
        ({
            let all = previous_events + new_events;
            synced(before, previous_events, new_events, receipts, user_id).pending.contains(id)
                <==> (before.pending.contains(id) || receipts.contains(id)) && forall|i: int|
                0 <= i < all.len() ==> event_id_field((#[trigger] all[i]).event) != Some(id)
        }),
{
    let all = previous_events + new_events;
    let known = sync_facts(all, user_id);
    law_receipts_wait_for_their_events(
        before,
        known,
        sync_facts(new_events, user_id),
        receipts,
        id,
    );
    assert(forall|i: int|
        0 <= i < all.len() ==> (#[trigger] known[i]).id == event_id_field(all[i].event));
    assert(forall|i: int|
        0 <= i < all.len() ==> event_id_field((#[trigger] all[i]).event) == known[i].id);
}

} // verus!
