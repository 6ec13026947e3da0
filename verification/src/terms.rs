//! Laws on the terms that the contracts are written in: what each of them says of plain values.
use vstd::prelude::*;
#[allow(unused_imports)]
use vstd::utf8::*;

#[allow(unused_imports)]
use crate::model::{
    best, event_ids, facts, facts_of, first_position, ids, is_first, is_last, known_ids,
    lemma_best_exists, lemma_first_position, lemma_sync_index, lemma_total_add, lemma_total_empty,
    lemma_total_push, position, sync_index, total, Counts, EventFacts,
};
#[allow(unused_imports)]
use crate::notifications::{event_views, has_room_for, new_receipts, sync_facts, sync_ids};
#[allow(unused_imports)]
use crate::receipt::{
    events_read_by, has_read, with_receipt, EventReceipts, EventReceiptsView, ReceiptEventContent,
    ReceiptThread, ReceiptType,
};
#[allow(unused_imports)]
use crate::room::{receipt_target, LatestReadReceipt, RoomReadReceipts};
#[allow(unused_imports)]
use crate::selector::{positions, receipts_for, unmatched, SelectorView};
#[allow(unused_imports)]
use crate::text::{
    is_increasing, is_smaller_at, lemma_precedes_irreflexive, lemma_precedes_transitive, precedes,
};
#[allow(unused_imports)]
use crate::timeline::{
    event_id_field, Action, DecodedEvent, SyncTimelineEvent, SyncTimelineEventView, TimelineEvent,
    Tweak,
};
#[allow(unused_imports)]
use crate::unread::{
    deserialized_event, is_notable_type, is_unread, is_unread_json, DeserializedEvent,
    DeserializedEventView, EventBody, EventBodyView, MessageContent,
};

verus! {

// Which events are unread.

/// A message-like event of one of the notable types marks the room as unread for every user but
/// its sender, unless it was redacted or is an edit.
pub proof fn law_messages_are_unread_for_everybody_else(
    event: DeserializedEvent,
    event_type: String,
    content: MessageContent,
    user_id: Seq<char>,
)
    requires
        event.body == (EventBody::MessageLike { event_type, content: Some(content) }),
        !content.is_replacement,
        !content.is_poll_replacement,
        !content.is_unstable_poll_replacement,
        event_type@ == "org.matrix.msc1767.message"@ || event_type@ == "m.poll.start"@
            || event_type@ == "org.matrix.msc3381.poll.start"@ || event_type@ == "m.poll.end"@
            || event_type@ == "org.matrix.msc3381.poll.end"@ || event_type@ == "m.room.encrypted"@
            || event_type@ == "m.room.message"@ || event_type@ == "m.sticker"@,
        event.sender@ != user_id,
    ensures
        is_unread(event@, user_id),
{
}

/// Nothing else marks the room as unread: an unread event was sent by somebody else, and is a
/// message-like event of one of the notable types, neither redacted nor an edit.
pub proof fn law_unread_events_are_messages_of_others(event: DeserializedEvent, user_id: Seq<char>)
    requires
        is_unread(event@, user_id),
    ensures
        event.sender@ != user_id,
        event.body matches EventBody::MessageLike { event_type, content: Some(content) }
            && !content.is_replacement && !content.is_poll_replacement
            && !content.is_unstable_poll_replacement && (event_type@
            == "org.matrix.msc1767.message"@ || event_type@ == "m.poll.start"@ || event_type@
            == "org.matrix.msc3381.poll.start"@ || event_type@ == "m.poll.end"@ || event_type@
            == "org.matrix.msc3381.poll.end"@ || event_type@ == "m.room.encrypted"@ || event_type@
            == "m.room.message"@ || event_type@ == "m.sticker"@),
{
}

/// The same of what a JSON text deserializes to: a message of somebody else is unread.
pub proof fn law_deserialized_messages_are_unread_for_everybody_else(
    sender: Seq<char>,
    event_type: Seq<char>,
    content: MessageContent,
    user_id: Seq<char>,
)
    requires
        !content.is_replacement,
        !content.is_poll_replacement,
        !content.is_unstable_poll_replacement,
        event_type == "org.matrix.msc1767.message"@ || event_type == "m.poll.start"@ || event_type
            == "org.matrix.msc3381.poll.start"@ || event_type == "m.poll.end"@ || event_type
            == "org.matrix.msc3381.poll.end"@ || event_type == "m.room.encrypted"@ || event_type
            == "m.room.message"@ || event_type == "m.sticker"@,
        sender != user_id,
    ensures
        is_unread(
            DeserializedEventView {
                sender,
                body: EventBodyView::MessageLike { event_type, content: Some(content) },
            },
            user_id,
        ),
{
}

/// Message-like events of types that are not notable never mark a room as unread, for any user.
pub proof fn law_other_types_are_read(
    sender: Seq<char>,
    event_type: Seq<char>,
    content: Option<MessageContent>,
    user_id: Seq<char>,
)
    requires
        event_type != "org.matrix.msc1767.message"@,
        event_type != "m.poll.start"@,
        event_type != "org.matrix.msc3381.poll.start"@,
        event_type != "m.poll.end"@,
        event_type != "org.matrix.msc3381.poll.end"@,
        event_type != "m.room.encrypted"@,
        event_type != "m.room.message"@,
        event_type != "m.sticker"@,
    ensures
        !is_notable_type(event_type),
        !is_unread(
            DeserializedEventView {
                sender,
                body: EventBodyView::MessageLike { event_type, content },
            },
            user_id,
        ),
{
}

/// The notable types.
pub proof fn law_notable_types(event_type: Seq<char>)
    requires
        event_type == "org.matrix.msc1767.message"@ || event_type == "m.poll.start"@ || event_type
            == "org.matrix.msc3381.poll.start"@ || event_type == "m.poll.end"@ || event_type
            == "org.matrix.msc3381.poll.end"@ || event_type == "m.room.encrypted"@ || event_type
            == "m.room.message"@ || event_type == "m.sticker"@,
    ensures
        is_notable_type(event_type),
{
}

/// All users other than the sender see an event alike.
pub proof fn law_all_but_the_sender_see_an_event_alike(
    event: DeserializedEventView,
    user_id: Seq<char>,
    other_user_id: Seq<char>,
)
    requires
        event.sender != user_id,
        event.sender != other_user_id,
    ensures
        is_unread(event, user_id) == is_unread(event, other_user_id),
{
}

/// A JSON text counts as unread exactly if it is that of an event and the event is unread.
pub proof fn law_texts_are_unread_as_their_events(json: Seq<char>, user_id: Seq<char>)
    ensures
        deserialized_event(json) is None ==> !is_unread_json(json, user_id),
        deserialized_event(json) matches Some(event) ==> is_unread_json(json, user_id)
            == is_unread(event, user_id),
{
}

/// The value of a deserialized event holds its sender and its body as they are.
pub proof fn law_value_of_a_deserialized_event(event: DeserializedEvent)
    ensures
        event@.sender == event.sender@,
        event.deep_view() == event@,
        match event.body {
            EventBody::State => event@.body == EventBodyView::State,
            EventBody::MessageLike { event_type, content } => event@.body == (
            EventBodyView::MessageLike { event_type: event_type@, content }),
        },
{
}

// What is read of an event.

/// An event of a sync is read by its text and its push actions.
pub proof fn law_sync_events_are_read_by_text_and_actions(
    event: SyncTimelineEvent,
    user_id: Seq<char>,
)
    ensures
        event@.event == event.event@,
        event@.push_actions == event.push_actions@,
        event.id() == event_id_field(event.event@),
        event.actions() == event.push_actions@,
        deserialized_event(event.event@) is None ==> !event.unread_for(user_id),
        deserialized_event(event.event@) matches Some(content) ==> event.unread_for(user_id)
            == is_unread(content, user_id),
{
}

/// An event whose text was read before is read by what was found in it.
pub proof fn law_decoded_events_are_read_by_what_was_found(event: DecodedEvent, user_id: Seq<char>)
    ensures
        event.event_id matches Some(id) ==> event.id() == Some(id@),
        event.event_id is None ==> event.id() is None,
        event.actions() == event.push_actions@,
        event.event is None ==> !event.unread_for(user_id),
        event.event matches Some(content) ==> event.unread_for(user_id) == is_unread(
            content@,
            user_id,
        ),
{
}

/// A reference to an event is read as the event.
pub proof fn law_references_are_read_as_their_events<E: TimelineEvent>(
    event: &E,
    user_id: Seq<char>,
)
    ensures
        <&E as TimelineEvent>::id(&event) == event.id(),
        <&E as TimelineEvent>::actions(&event) == event.actions(),
        <&E as TimelineEvent>::unread_for(&event, user_id) == event.unread_for(user_id),
{
}

/// An event is highlighted, and counts as one mention, if any of its push actions is a highlight
/// tweak that is set, wherever it stands among them; otherwise it counts as none. The same holds
/// of notifications.
pub proof fn law_each_push_action_counts<E: TimelineEvent>(event: E, user_id: Seq<char>, at: int)
    ensures
        0 <= at < event.actions().len() && event.actions()[at] == Action::SetTweak(
            Tweak::Highlight(true),
        ) ==> facts_of(event, user_id).highlight && facts_of(event, user_id).tally().mentions == 1,
        (forall|i: int|
            0 <= i < event.actions().len() ==> #[trigger] event.actions()[i] != Action::SetTweak(
                Tweak::Highlight(true),
            )) ==> !facts_of(event, user_id).highlight && facts_of(event, user_id).tally().mentions
            == 0,
        0 <= at < event.actions().len() && event.actions()[at] == Action::Notify ==> facts_of(
            event,
            user_id,
        ).notify && facts_of(event, user_id).tally().notifications == 1,
        (forall|i: int|
            0 <= i < event.actions().len() ==> #[trigger] event.actions()[i] != Action::Notify)
            ==> !facts_of(event, user_id).notify && facts_of(
            event,
            user_id,
        ).tally().notifications == 0,
        event.unread_for(user_id) ==> facts_of(event, user_id).tally().unread == 1,
        !event.unread_for(user_id) ==> facts_of(event, user_id).tally().unread == 0,
{
    let actions = event.actions();
    let highlight = Action::SetTweak(Tweak::Highlight(true));
    if actions.contains(highlight) {
        let i = choose|i: int| 0 <= i < actions.len() && actions[i] == highlight;
        assert(event.actions()[i] == highlight);
    }
    if actions.contains(Action::Notify) {
        let i = choose|i: int| 0 <= i < actions.len() && actions[i] == Action::Notify;
        assert(event.actions()[i] == Action::Notify);
    }
}

/// The order of an event's push actions does not matter, nor how often one occurs among them, nor
/// what other actions there are.
pub proof fn law_order_of_push_actions_does_not_matter<E: TimelineEvent>(
    event: E,
    other: E,
    user_id: Seq<char>,
)
    requires
        event.unread_for(user_id) == other.unread_for(user_id),
        event.id() == other.id(),
        event.actions().to_set() == other.actions().to_set(),
    ensures
        facts_of(event, user_id) == facts_of(other, user_id),
{
    let highlight = Action::SetTweak(Tweak::Highlight(true));
    assert(event.actions().to_set().contains(highlight) == event.actions().contains(highlight));
    assert(other.actions().to_set().contains(highlight) == other.actions().contains(highlight));
    assert(event.actions().to_set().contains(Action::Notify) == event.actions().contains(
        Action::Notify,
    ));
    assert(other.actions().to_set().contains(Action::Notify) == other.actions().contains(
        Action::Notify,
    ));
}

/// The facts of a list are those of its events, one by one.
pub proof fn law_facts_one_by_one<E: TimelineEvent>(events: Seq<E>, user_id: Seq<char>, i: int)
    requires
        0 <= i < events.len(),
    ensures
        facts(events, user_id).len() == events.len(),
        event_ids(events).len() == events.len(),
        facts(events, user_id)[i] == facts_of(events[i], user_id),
        facts(events, user_id)[i].id == events[i].id(),
        facts(events, user_id)[i].unread == events[i].unread_for(user_id),
        event_ids(events)[i] == events[i].id(),
        ids(facts(events, user_id)) == event_ids(events),
{
    assert(ids(facts(events, user_id)) =~= event_ids(events));
}

/// The ids in a list of facts, one by one.
pub proof fn law_ids_one_by_one(events: Seq<EventFacts>, i: int)
    requires
        0 <= i < events.len(),
    ensures
        ids(events).len() == events.len(),
        ids(events)[i] == events[i].id,
{
}

/// The facts of a sync's events, one by one: their ids and whether they are unread as their texts
/// say, and whether they notify or are highlighted as any of their push actions says.
pub proof fn law_sync_facts_one_by_one(
    events: Seq<SyncTimelineEventView>,
    user_id: Seq<char>,
    i: int,
    at: int,
)
    requires
        0 <= i < events.len(),
    ensures
        sync_facts(events, user_id).len() == events.len(),
        sync_ids(events).len() == events.len(),
        sync_ids(events)[i] == event_id_field(events[i].event),
        sync_facts(events, user_id)[i].id == event_id_field(events[i].event),
        deserialized_event(events[i].event) is None ==> !sync_facts(events, user_id)[i].unread,
        deserialized_event(events[i].event) matches Some(event) ==> sync_facts(
            events,
            user_id,
        )[i].unread == is_unread(event, user_id),
        0 <= at < events[i].push_actions.len() && events[i].push_actions[at] == Action::Notify
            ==> sync_facts(events, user_id)[i].notify,
        (forall|j: int|
            0 <= j < events[i].push_actions.len() ==> #[trigger] events[i].push_actions[j]
                != Action::Notify) ==> !sync_facts(events, user_id)[i].notify,
        0 <= at < events[i].push_actions.len() && events[i].push_actions[at] == Action::SetTweak(
            Tweak::Highlight(true),
        ) ==> sync_facts(events, user_id)[i].highlight,
        (forall|j: int|
            0 <= j < events[i].push_actions.len() ==> #[trigger] events[i].push_actions[j]
                != Action::SetTweak(Tweak::Highlight(true))) ==> !sync_facts(
            events,
            user_id,
        )[i].highlight,
{
}

/// The values of a batch of events, one by one.
pub proof fn law_event_views_one_by_one(events: Seq<SyncTimelineEvent>, i: int)
    requires
        0 <= i < events.len(),
    ensures
        event_views(events).len() == events.len(),
        event_views(events)[i].event == events[i].event@,
        event_views(events)[i].push_actions == events[i].push_actions@,
{
}

/// Nothing comes of no events.
pub proof fn law_no_events<E: TimelineEvent>(user_id: Seq<char>)
    ensures
        facts(Seq::<E>::empty(), user_id).len() == 0,
        event_ids(Seq::<E>::empty()).len() == 0,
        ids(Seq::empty()).len() == 0,
        sync_facts(Seq::empty(), user_id).len() == 0,
        sync_ids(Seq::empty()).len() == 0,
        event_views(Seq::empty()).len() == 0,
        known_ids(Seq::empty()) == Set::<Seq<char>>::empty(),
{
    assert(known_ids(Seq::empty()) =~= Set::empty());
}

// Counting.

/// No events count as nothing; each event adds one to each of the numbers that it counts for, and
/// leaves the others.
pub proof fn law_each_event_counts_once(events: Seq<EventFacts>, event: EventFacts)
    ensures
        total(Seq::empty()).unread == 0,
        total(Seq::empty()).notifications == 0,
        total(Seq::empty()).mentions == 0,
        event.unread ==> total(events.push(event)).unread == total(events).unread + 1,
        !event.unread ==> total(events.push(event)).unread == total(events).unread,
        event.notify ==> total(events.push(event)).notifications == total(events).notifications
            + 1,
        !event.notify ==> total(events.push(event)).notifications == total(events).notifications,
        event.highlight ==> total(events.push(event)).mentions == total(events).mentions + 1,
        !event.highlight ==> total(events.push(event)).mentions == total(events).mentions,
{
    lemma_total_empty();
    lemma_total_push(events, event);
}

/// What counts in a list does not depend on the order of its events.
pub proof fn law_order_does_not_change_what_counts(
    events: Seq<EventFacts>,
    other: Seq<EventFacts>,
)
    requires
        events.to_multiset() == other.to_multiset(),
    ensures
        total(events) == total(other),
    decreases events.len(),
{
    events.to_multiset_ensures();
    other.to_multiset_ensures();
    if events.len() == 0 {
        assert(events =~= other);
    } else {
        let event = events.last();
        let rest = events.drop_last();
        assert(rest.push(event) =~= events);
        assert(events.to_multiset().count(event) > 0) by {
            assert(events.contains(event));
        }
        assert(other.contains(event));
        let at = choose|i: int| 0 <= i < other.len() && other[i] == event;
        let (left, right) = (other.take(at), other.skip(at + 1));
        assert(other =~= left.push(event) + right);
        let other_rest = left + right;
        assert(other_rest =~= other.remove(at));
        assert(events.remove(events.len() - 1) =~= rest);
        assert(rest.to_multiset() =~= events.to_multiset().remove(event));
        assert(other_rest.to_multiset() =~= other.to_multiset().remove(event));
        law_order_does_not_change_what_counts(rest, other_rest);
        lemma_total_push(rest, event);
        lemma_total_add(left.push(event), right);
        lemma_total_push(left, event);
        lemma_total_add(left, right);
    }
}

/// Whether an event counts at all, and as what.
pub proof fn law_tally(event: EventFacts)
    ensures
        event.counts() <==> event.tally().unread + event.tally().notifications
            + event.tally().mentions > 0,
        event.unread ==> event.tally().unread == 1,
        !event.unread ==> event.tally().unread == 0,
        event.notify ==> event.tally().notifications == 1,
        !event.notify ==> event.tally().notifications == 0,
        event.highlight ==> event.tally().mentions == 1,
        !event.highlight ==> event.tally().mentions == 0,
{
}

/// Counts add up number by number, and fit if each number is one that a counter can hold.
pub proof fn law_counts(a: Counts, b: Counts, n: nat)
    ensures
        a.plus(b).unread == a.unread + b.unread,
        a.plus(b).notifications == a.notifications + b.notifications,
        a.plus(b).mentions == a.mentions + b.mentions,
        a.fit() <==> a.unread <= u64::MAX && a.notifications <= u64::MAX && a.mentions <= u64::MAX,
        a.at_most(n) <==> a.unread <= n && a.notifications <= n && a.mentions <= n,
        has_room_for(a, n) <==> a.unread + n <= u64::MAX && a.notifications + n <= u64::MAX
            && a.mentions + n <= u64::MAX,
{
}

// Read receipts of a room.

/// The value of the read receipts of a room holds what the fields hold.
pub proof fn law_value_of_read_receipts(receipts: RoomReadReceipts)
    ensures
        receipts@.counts.unread == receipts.num_unread,
        receipts@.counts.notifications == receipts.num_notifications,
        receipts@.counts.mentions == receipts.num_mentions,
        receipts.counts() == receipts@.counts,
        receipts.latest_active is None ==> receipts@.latest_active is None,
        receipts.latest_active matches Some(latest) ==> receipts@.latest_active == Some(
            latest.event_id@,
        ),
        receipts@.pending == receipts.pending@,
{
}

/// The event that a receipt refers to.
pub proof fn law_receipt_target(receipt: LatestReadReceipt)
    ensures
        receipt_target(Some(receipt)) == Some(receipt.event_id@),
        receipt_target(None) is None,
{
}

// Positions.

/// An id is known exactly if it stands somewhere in the list.
pub proof fn law_known_ids(ids: Seq<Option<Seq<char>>>, id: Seq<char>)
    ensures
        known_ids(ids).contains(id) <==> exists|i: int|
            0 <= i < ids.len() && #[trigger] ids[i] == Some(id),
{
}

/// The sync order of an event is the last position where its id stands.
pub proof fn law_sync_order_is_the_last_position(
    ids: Seq<Option<Seq<char>>>,
    id: Seq<char>,
    pos: int,
)
    requires
        0 <= pos < ids.len(),
        ids[pos] == Some(id),
        forall|i: int| pos < i < ids.len() ==> #[trigger] ids[i] != Some(id),
    ensures
        sync_index(ids).contains_key(id),
        sync_index(ids)[id] == pos,
        position(sync_index(ids), Some(id)) == Some(pos),
{
    lemma_sync_index(ids);
    assert(is_last(ids, id, sync_index(ids)[id]));
}

/// An event whose id stands nowhere in the list has no sync order.
pub proof fn law_unknown_events_have_no_sync_order(ids: Seq<Option<Seq<char>>>, id: Seq<char>)
    requires
        forall|i: int| 0 <= i < ids.len() ==> #[trigger] ids[i] != Some(id),
    ensures
        !sync_index(ids).contains_key(id),
        position(sync_index(ids), Some(id)) is None,
        position(sync_index(ids), None) is None,
{
    lemma_sync_index(ids);
}

/// The position of an event is that which the index gives it.
pub proof fn law_position(index: Map<Seq<char>, int>, id: Seq<char>)
    ensures
        index.contains_key(id) ==> position(index, Some(id)) == Some(index[id]),
        !index.contains_key(id) ==> position(index, Some(id)) is None,
        position(index, None) is None,
{
}

/// The first position of an id.
pub proof fn law_first_position(ids: Seq<Option<Seq<char>>>, id: Seq<char>, pos: int)
    requires
        0 <= pos < ids.len(),
        ids[pos] == Some(id),
        forall|i: int| 0 <= i < pos ==> #[trigger] ids[i] != Some(id),
    ensures
        first_position(ids, id) == pos,
{
    assert(is_first(ids, id, pos));
    lemma_first_position(ids, id);
}

/// A map of positions, taken as integers, holds the same positions.
pub proof fn law_positions(index: Map<Seq<char>, usize>, id: Seq<char>)
    ensures
        positions(index).contains_key(id) == index.contains_key(id),
        index.contains_key(id) ==> positions(index)[id] == index[id],
{
}

/// The best of the candidates is a known one; none of the known ones comes later, and what it has
/// to beat comes earlier.
pub proof fn law_best_candidate(
    index: Map<Seq<char>, int>,
    candidates: Set<Seq<char>>,
    floor: Option<int>,
    other: Seq<char>,
)
    requires
        best(index, candidates, floor) is Some,
    ensures
        candidates.contains(best(index, candidates, floor)->0),
        index.contains_key(best(index, candidates, floor)->0),
        floor matches Some(floor_pos) ==> floor_pos < index[best(index, candidates, floor)->0],
        candidates.contains(other) && index.contains_key(other) ==> index[other]
            <= index[best(index, candidates, floor)->0],
{
}

/// Where none of the candidates is the best, each known one comes no later than what it would
/// have to beat.
pub proof fn law_no_best_candidate(
    index: Map<Seq<char>, int>,
    candidates: Set<Seq<char>>,
    floor: Option<int>,
    other: Seq<char>,
    bound: int,
)
    requires
        best(index, candidates, floor) is None,
        forall|id: Seq<char>| #[trigger] index.contains_key(id) ==> index[id] <= bound,
        candidates.contains(other),
        index.contains_key(other),
    ensures
        floor matches Some(floor_pos) && index[other] <= floor_pos,
{
    if floor is None || index[other] > floor->0 {
        lemma_best_exists(index, candidates, floor, other, bound);
    }
}

/// A receipt is selected exactly if nothing was selected to beat, or if its event comes later.
pub proof fn law_select(selector: SelectorView, id: Seq<char>, pos: int)
    ensures
        selector.best_pos is None ==> selector.select(id, pos) == (SelectorView {
            index: selector.index,
            best_receipt: Some(id),
            best_pos: Some(pos),
        }),
        selector.best_pos matches Some(best_pos) ==> if pos > best_pos {
            selector.select(id, pos) == (SelectorView {
                index: selector.index,
                best_receipt: Some(id),
                best_pos: Some(pos),
            })
        } else {
            selector.select(id, pos) == selector
        },
{
}

/// After candidates have been considered, the selected receipt is the earlier one, or one of the
/// known candidates that comes later; and no known candidate comes later than it.
pub proof fn law_consider(
    selector: SelectorView,
    candidates: Set<Seq<char>>,
    other: Seq<char>,
    bound: int,
)
    requires
        forall|id: Seq<char>| #[trigger] selector.index.contains_key(id) ==> selector.index[id]
            <= bound,
    ensures
        ({
            let after = selector.consider(candidates);
            &&& after.index == selector.index
            &&& after == selector || {
                &&& after.best_receipt matches Some(id)
                &&& candidates.contains(id)
                &&& selector.index.contains_key(id)
                &&& after.best_pos == Some(selector.index[id])
                &&& selector.best_pos matches Some(best_pos) ==> best_pos < selector.index[id]
            }
            &&& candidates.contains(other) && selector.index.contains_key(other)
                ==> after.best_pos is Some && selector.index[other] <= after.best_pos->0
        }),
{
    if candidates.contains(other) && selector.index.contains_key(other) && best(
        selector.index,
        candidates,
        selector.best_pos,
    ) is None {
        law_no_best_candidate(selector.index, candidates, selector.best_pos, other, bound);
    }
}

// Receipts.

/// A user has read an event exactly if there is a receipt of the user for it, public or private,
/// that is for the main timeline or without a thread.
pub proof fn law_events_read(
    content: Map<Seq<char>, EventReceiptsView>,
    user_id: Seq<char>,
    event_id: Seq<char>,
)
    ensures
        events_read_by(content, user_id).contains(event_id) <==> content.contains_key(event_id) && {
            ||| content[event_id].read.contains_key(user_id) && content[event_id].read[user_id]
                == ReceiptThread::Main
            ||| content[event_id].read.contains_key(user_id) && content[event_id].read[user_id]
                == ReceiptThread::Unthreaded
            ||| content[event_id].read_private.contains_key(user_id)
                && content[event_id].read_private[user_id] == ReceiptThread::Main
            ||| content[event_id].read_private.contains_key(user_id)
                && content[event_id].read_private[user_id] == ReceiptThread::Unthreaded
        },
        has_read(content, event_id, user_id) == events_read_by(content, user_id).contains(event_id),
{
}

/// A receipt for a thread, whatever its root, or for one that is not known, never adds to what
/// the user has read; and it concerns no event but its own.
pub proof fn law_receipts_for_threads_add_nothing(
    content: Map<Seq<char>, EventReceiptsView>,
    event_id: Seq<char>,
    receipt_type: ReceiptType,
    user_id: Seq<char>,
    root: String,
    other: Seq<char>,
)
    ensures
        events_read_by(
            with_receipt(content, event_id, receipt_type, user_id, ReceiptThread::Thread(root)),
            user_id,
        ).subset_of(events_read_by(content, user_id)),
        events_read_by(
            with_receipt(content, event_id, receipt_type, user_id, ReceiptThread::Custom(root)),
            user_id,
        ).subset_of(events_read_by(content, user_id)),
        !content.contains_key(event_id) ==> events_read_by(
            with_receipt(content, event_id, receipt_type, user_id, ReceiptThread::Thread(root)),
            user_id,
        ) == events_read_by(content, user_id),
        !content.contains_key(event_id) ==> events_read_by(
            with_receipt(content, event_id, receipt_type, user_id, ReceiptThread::Custom(root)),
            user_id,
        ) == events_read_by(content, user_id),
        other != event_id ==> events_read_by(
            with_receipt(content, event_id, receipt_type, user_id, ReceiptThread::Thread(root)),
            user_id,
        ).contains(other) == events_read_by(content, user_id).contains(other),
        other != event_id ==> events_read_by(
            with_receipt(content, event_id, receipt_type, user_id, ReceiptThread::Custom(root)),
            user_id,
        ).contains(other) == events_read_by(content, user_id).contains(other),
{
    if !content.contains_key(event_id) {
        assert(events_read_by(
            with_receipt(content, event_id, receipt_type, user_id, ReceiptThread::Thread(root)),
            user_id,
        ) =~= events_read_by(content, user_id));
        assert(events_read_by(
            with_receipt(content, event_id, receipt_type, user_id, ReceiptThread::Custom(root)),
            user_id,
        ) =~= events_read_by(content, user_id));
    }
}

/// A read receipt, public or private, that is for the main timeline or without a thread adds its
/// event to what the user has read, and nothing else.
pub proof fn law_receipts_for_the_timeline_add_their_event(
    content: Map<Seq<char>, EventReceiptsView>,
    event_id: Seq<char>,
    receipt_type: ReceiptType,
    user_id: Seq<char>,
)
    requires
        receipt_type == ReceiptType::Read || receipt_type == ReceiptType::ReadPrivate,
    ensures
        events_read_by(
            with_receipt(content, event_id, receipt_type, user_id, ReceiptThread::Main),
            user_id,
        ) == events_read_by(content, user_id).insert(event_id),
        events_read_by(
            with_receipt(content, event_id, receipt_type, user_id, ReceiptThread::Unthreaded),
            user_id,
        ) == events_read_by(content, user_id).insert(event_id),
{
    assert(events_read_by(
        with_receipt(content, event_id, receipt_type, user_id, ReceiptThread::Main),
        user_id,
    ) =~= events_read_by(content, user_id).insert(event_id));
    assert(events_read_by(
        with_receipt(content, event_id, receipt_type, user_id, ReceiptThread::Unthreaded),
        user_id,
    ) =~= events_read_by(content, user_id).insert(event_id));
}

/// The threads whose receipts say what was read of the timeline.
pub proof fn law_threads_of_the_timeline(root: String)
    ensures
        ReceiptThread::Main.applies_to_timeline(),
        ReceiptThread::Unthreaded.applies_to_timeline(),
        !ReceiptThread::Thread(root).applies_to_timeline(),
        !ReceiptThread::Custom(root).applies_to_timeline(),
{
}

/// Without receipts, nothing has been read.
pub proof fn law_nothing_read_without_receipts(user_id: Seq<char>)
    ensures
        events_read_by(Map::empty(), user_id) == Set::<Seq<char>>::empty(),
        new_receipts(None, user_id) == Set::<Seq<char>>::empty(),
{
    assert(events_read_by(Map::empty(), user_id) =~= Set::empty());
}

/// What a receipt event says has been read.
pub proof fn law_new_receipts(content: &ReceiptEventContent, user_id: Seq<char>)
    ensures
        new_receipts(Some(content), user_id) == events_read_by(content@, user_id),
{
}

/// A receipt takes the place of the user's earlier one of its type for its event.
pub proof fn law_later_receipt_replaces_the_earlier_one(
    content: Map<Seq<char>, EventReceiptsView>,
    event_id: Seq<char>,
    receipt_type: ReceiptType,
    user_id: Seq<char>,
    earlier: ReceiptThread,
    later: ReceiptThread,
)
    ensures
        with_receipt(
            with_receipt(content, event_id, receipt_type, user_id, earlier),
            event_id,
            receipt_type,
            user_id,
            later,
        ) == with_receipt(content, event_id, receipt_type, user_id, later),
{
    let one = with_receipt(content, event_id, receipt_type, user_id, earlier);
    let two = with_receipt(one, event_id, receipt_type, user_id, later);
    let direct = with_receipt(content, event_id, receipt_type, user_id, later);
    assert(two[event_id] =~= direct[event_id]);
    assert(two =~= direct);
}

/// Receipts that differ in their event, their type or their user can come in either order.
pub proof fn law_other_receipts_come_in_either_order(
    content: Map<Seq<char>, EventReceiptsView>,
    event_id: Seq<char>,
    receipt_type: ReceiptType,
    user_id: Seq<char>,
    thread: ReceiptThread,
    other_event_id: Seq<char>,
    other_type: ReceiptType,
    other_user_id: Seq<char>,
    other_thread: ReceiptThread,
)
    requires
        event_id != other_event_id || receipt_type != other_type || user_id != other_user_id,
    ensures
        with_receipt(
            with_receipt(content, event_id, receipt_type, user_id, thread),
            other_event_id,
            other_type,
            other_user_id,
            other_thread,
        ) == with_receipt(
            with_receipt(content, other_event_id, other_type, other_user_id, other_thread),
            event_id,
            receipt_type,
            user_id,
            thread,
        ),
{
    let a = with_receipt(content, event_id, receipt_type, user_id, thread);
    let ab = with_receipt(a, other_event_id, other_type, other_user_id, other_thread);
    let b = with_receipt(content, other_event_id, other_type, other_user_id, other_thread);
    let ba = with_receipt(b, event_id, receipt_type, user_id, thread);
    assert(ab[event_id] =~= ba[event_id]);
    assert(ab[other_event_id] =~= ba[other_event_id]);
    assert(ab =~= ba);
}

/// A receipt stands afterwards where it belongs, and every other one stands where it stood.
pub proof fn law_receipts_stand_where_they_belong(
    content: Map<Seq<char>, EventReceiptsView>,
    event_id: Seq<char>,
    receipt_type: ReceiptType,
    user_id: Seq<char>,
    thread: ReceiptThread,
    other: Seq<char>,
)
    ensures
        ({
            let after = with_receipt(content, event_id, receipt_type, user_id, thread);
            let earlier = if content.contains_key(event_id) {
                content[event_id]
            } else {
                EventReceiptsView {
                    read: Map::empty(),
                    read_private: Map::empty(),
                    custom: Map::empty(),
                }
            };
            &&& after.dom() == content.dom().insert(event_id)
            &&& other != event_id ==> after[other] == content[other]
            &&& after[event_id].read == if receipt_type == ReceiptType::Read {
                earlier.read.insert(user_id, thread)
            } else {
                earlier.read
            }
            &&& after[event_id].read_private == if receipt_type == ReceiptType::ReadPrivate {
                earlier.read_private.insert(user_id, thread)
            } else {
                earlier.read_private
            }
            &&& after[event_id].custom == if receipt_type == ReceiptType::Custom {
                earlier.custom.insert(user_id, thread)
            } else {
                earlier.custom
            }
        }),
{
    let after = with_receipt(content, event_id, receipt_type, user_id, thread);
    assert(after.dom() =~= content.dom().insert(event_id));
}

/// The value of an event's receipts holds what the fields hold, and each type is found in its
/// own field.
pub proof fn law_value_of_event_receipts(
    receipts: EventReceipts,
    receipt_type: ReceiptType,
    user_id: Seq<char>,
    thread: ReceiptThread,
)
    ensures
        receipts@.read == receipts.read@,
        receipts@.read_private == receipts.read_private@,
        receipts@.custom == receipts.custom@,
        receipts@.of_type(ReceiptType::Read) == receipts.read@,
        receipts@.of_type(ReceiptType::ReadPrivate) == receipts.read_private@,
        receipts@.of_type(ReceiptType::Custom) == receipts.custom@,
        receipts@.read_by(receipt_type, user_id) <==> ({
            let of_type = match receipt_type {
                ReceiptType::Read => receipts.read@,
                ReceiptType::ReadPrivate => receipts.read_private@,
                ReceiptType::Custom => receipts.custom@,
            };
            of_type.contains_key(user_id) && (of_type[user_id] == ReceiptThread::Main
                || of_type[user_id] == ReceiptThread::Unthreaded)
        }),
        receipts@.with(ReceiptType::Read, user_id, thread) == (EventReceiptsView {
            read: receipts.read@.insert(user_id, thread),
            read_private: receipts.read_private@,
            custom: receipts.custom@,
        }),
        receipts@.with(ReceiptType::ReadPrivate, user_id, thread) == (EventReceiptsView {
            read: receipts.read@,
            read_private: receipts.read_private@.insert(user_id, thread),
            custom: receipts.custom@,
        }),
        receipts@.with(ReceiptType::Custom, user_id, thread) == (EventReceiptsView {
            read: receipts.read@,
            read_private: receipts.read_private@,
            custom: receipts.custom@.insert(user_id, thread),
        }),
        EventReceiptsView::empty().read == Map::<Seq<char>, ReceiptThread>::empty(),
        EventReceiptsView::empty().read_private == Map::<Seq<char>, ReceiptThread>::empty(),
        EventReceiptsView::empty().custom == Map::<Seq<char>, ReceiptThread>::empty(),
{
}

/// Going through one more event of a receipt event adds nothing to what is unmatched where the
/// event is known, and otherwise its id at the end, once for each of the user's receipts for it
/// that are for the timeline.
pub proof fn law_unmatched_receipts_event_by_event(
    content: Map<Seq<char>, EventReceiptsView>,
    events: Seq<Seq<char>>,
    id: Seq<char>,
    user_id: Seq<char>,
    known: Set<Seq<char>>,
)
    ensures
        unmatched(content, Seq::empty(), user_id, known) == Seq::<Seq<char>>::empty(),
        ({
            let before = unmatched(content, events, user_id, known);
            let after = unmatched(content, events.push(id), user_id, known);
            let public = content[id].read.contains_key(user_id) && (content[id].read[user_id]
                == ReceiptThread::Main || content[id].read[user_id] == ReceiptThread::Unthreaded);
            let private = content[id].read_private.contains_key(user_id) && (
            content[id].read_private[user_id] == ReceiptThread::Main
                || content[id].read_private[user_id] == ReceiptThread::Unthreaded);
            &&& known.contains(id) || !public && !private ==> after == before
            &&& !known.contains(id) && public != private ==> after == before.push(id)
            &&& !known.contains(id) && public && private ==> after == before.push(id).push(id)
        }),
{
    assert(events.push(id).drop_last() =~= events);
    let before = unmatched(content, events, user_id, known);
    let after = unmatched(content, events.push(id), user_id, known);
    assert(before + Seq::<Seq<char>>::empty() =~= before);
    assert(receipts_for(content, id, user_id).len() == 0 ==> after =~= before);
    assert(receipts_for(content, id, user_id).len() == 1 && !known.contains(id) ==> after
        =~= before.push(id));
    assert(receipts_for(content, id, user_id).len() == 2 && !known.contains(id) ==> after
        =~= before.push(id).push(id));
}

// Order.

/// A string precedes another one if the bytes of their UTF-8 encodings agree up to a position
/// where the first string has the smaller byte, or where it ends and the second one does not.
pub proof fn law_order_of_strings(a: Seq<char>, b: Seq<char>, k: int)
    requires
        0 <= k < encode_utf8(b).len(),
        k <= encode_utf8(a).len(),
        forall|i: int| 0 <= i < k ==> encode_utf8(a)[i] == encode_utf8(b)[i],
    ensures
        k == encode_utf8(a).len() ==> precedes(a, b) && !precedes(b, a),
        k < encode_utf8(a).len() && encode_utf8(a)[k] < encode_utf8(b)[k] ==> precedes(a, b)
            && !precedes(b, a),
{
    if k == encode_utf8(a).len() || encode_utf8(a)[k] < encode_utf8(b)[k] {
        assert(is_smaller_at(encode_utf8(a), encode_utf8(b), k));
        if precedes(b, a) {
            lemma_precedes_transitive(a, b, a);
            lemma_precedes_irreflexive(a);
        }
    }
}

/// A list is increasing exactly if each of its strings precedes all later ones.
pub proof fn law_increasing(strings: Seq<Seq<char>>, i: int, j: int)
    ensures
        is_increasing(strings) && 0 <= i < j < strings.len() ==> precedes(strings[i], strings[j]),
        is_increasing(Seq::empty()),
        (forall|a: int, b: int|
            0 <= a < b < strings.len() ==> precedes(#[trigger] strings[a], #[trigger] strings[b]))
            ==> is_increasing(strings),
{
}

} // verus!
