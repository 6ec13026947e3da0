use std::ops::Not as _;

use eyeball_im::Vector;
use read_receipts::event_id_set::EventIdSet;
use read_receipts::notifications::compute_notifications;
use read_receipts::provider::PreviousEventsProvider;
use read_receipts::receipt::{ReceiptEventContent, ReceiptThread, ReceiptType};
use read_receipts::room::RoomReadReceipts;
use read_receipts::selector::ReceiptSelector;
use read_receipts::timeline::{Action, SyncTimelineEvent, Tweak};
use read_receipts::unread::marks_as_unread;

/// A text message, as JSON.
fn message(sender: &str, event_id: &str, origin_server_ts: u64, body: &str) -> String {
    format!(
        r#"{{
            "sender": "{sender}",
            "type": "m.room.message",
            "event_id": "{event_id}",
            "origin_server_ts": {origin_server_ts},
            "content": {{ "body": "{body}", "msgtype": "m.text" }}
        }}"#
    )
}

fn sync_timeline_message(sender: &str, event_id: &str, body: &str) -> SyncTimelineEvent {
    SyncTimelineEvent::new(message(sender, event_id, 42, body))
}

fn make_test_events(user_id: &str) -> Vec<SyncTimelineEvent> {
    let ev1 = sync_timeline_message(user_id, "$1", "With the lights out, it's less dangerous");
    let ev2 = sync_timeline_message(user_id, "$2", "Here we are now, entertain us");
    let ev3 = sync_timeline_message(user_id, "$3", "I feel stupid and contagious");
    let ev4 = sync_timeline_message(user_id, "$4", "Here we are now, entertain us");
    let ev5 = sync_timeline_message(user_id, "$5", "Hello, hello, hello, how low?");
    vec![ev1, ev2, ev3, ev4, ev5]
}

fn make_receipt_event_content<const N: usize>(
    receipts: [(&str, ReceiptType, &str, ReceiptThread); N],
) -> ReceiptEventContent {
    let mut content = ReceiptEventContent::new();
    for (event_id, receipt_type, user_id, thread) in receipts {
        content.insert(event_id.to_owned(), receipt_type, user_id.to_owned(), thread);
    }
    content
}

fn event_id_set<const N: usize>(ids: [&str; N]) -> EventIdSet {
    let mut set = EventIdSet::new();
    for id in ids {
        set.insert(id.to_owned());
    }
    set
}

/// Known events, in sync order.
struct Known(Vector<SyncTimelineEvent>);

impl Known {
    fn new(events: &[SyncTimelineEvent]) -> Self {
        Known(events.iter().cloned().collect())
    }
}

impl PreviousEventsProvider for Known {
    fn for_room(&self, _room_id: &str) -> Vector<SyncTimelineEvent> {
        self.0.clone()
    }
}

#[test]
fn test_room_message_marks_as_unread() {
    let user_id = "@alice:example.org";
    let other_user_id = "@bob:example.org";

    // A message from somebody else marks the room as unread...
    let ev = message(other_user_id, "$ida", 12344446, "A");
    assert!(marks_as_unread(&ev, user_id));

    // ... but a message from ourselves doesn't.
    let ev = message(user_id, "$ida", 12344446, "A");
    assert!(marks_as_unread(&ev, user_id).not());
}

#[test]
fn test_room_edit_doesnt_mark_as_unread() {
    let user_id = "@alice:example.org";
    let other_user_id = "@bob:example.org";

    // An edit to a message from somebody else doesn't mark the room as unread.
    let ev = format!(
        r#"{{
            "sender": "{other_user_id}",
            "type": "m.room.message",
            "event_id": "$ida",
            "origin_server_ts": 12344446,
            "content": {{
                "body": " * edited message",
                "m.new_content": {{
                    "body": "edited message",
                    "msgtype": "m.text"
                }},
                "m.relates_to": {{
                    "event_id": "$someeventid:localhost",
                    "rel_type": "m.replace"
                }},
                "msgtype": "m.text"
            }}
        }}"#
    );
    assert!(marks_as_unread(&ev, user_id).not());
}

#[test]
fn test_redaction_doesnt_mark_room_as_unread() {
    let user_id = "@alice:example.org";
    let other_user_id = "@bob:example.org";

    // A redact of a message from somebody else doesn't mark the room as unread.
    let ev = format!(
        r#"{{
            "content": {{
                "reason": "🛑"
            }},
            "event_id": "$151957878228ssqrJ:localhost",
            "origin_server_ts": 151957878000000,
            "sender": "{other_user_id}",
            "type": "m.room.redaction",
            "redacts": "$151957878228ssqrj:localhost",
            "unsigned": {{
                "age": 85
            }}
        }}"#
    );

    assert!(marks_as_unread(&ev, user_id).not());
}

#[test]
fn test_reaction_doesnt_mark_room_as_unread() {
    let user_id = "@alice:example.org";
    let other_user_id = "@bob:example.org";

    // A reaction from somebody else to a message doesn't mark the room as unread.
    let ev = format!(
        r#"{{
            "content": {{
                "m.relates_to": {{
                    "event_id": "$15275047031IXQRi:localhost",
                    "key": "👍",
                    "rel_type": "m.annotation"
                }}
            }},
            "event_id": "$15275047031IXQRi:localhost",
            "origin_server_ts": 159027581000000,
            "sender": "{other_user_id}",
            "type": "m.reaction",
            "unsigned": {{
                "age": 85
            }}
        }}"#
    );

    assert!(marks_as_unread(&ev, user_id).not());
}

#[test]
fn test_state_event_doesnt_mark_as_unread() {
    let user_id = "@alice:example.org";
    let event_id = "$1";
    let ev = format!(
        r#"{{
            "content": {{
                "displayname": "Alice",
                "membership": "join"
            }},
            "event_id": "{event_id}",
            "origin_server_ts": 1432135524678,
            "sender": "{user_id}",
            "state_key": "{user_id}",
            "type": "m.room.member"
        }}"#
    );

    assert!(marks_as_unread(&ev, user_id).not());

    let other_user_id = "@bob:example.org";
    assert!(marks_as_unread(&ev, other_user_id).not());
}

#[test]
fn test_count_unread_and_mentions() {
    fn make_event(user_id: &str, push_actions: Vec<Action>) -> SyncTimelineEvent {
        SyncTimelineEvent { event: message(user_id, "$ida", 12344446, "A"), push_actions }
    }

    let user_id = "@alice:example.org";

    // An interesting event from oneself doesn't count as a new unread message.
    let event = make_event(user_id, Vec::new());
    let mut receipts = RoomReadReceipts::default();
    receipts.account_event(&event, user_id);
    assert_eq!(receipts.num_unread, 0);
    assert_eq!(receipts.num_mentions, 0);
    assert_eq!(receipts.num_notifications, 0);

    // An interesting event from someone else does count as a new unread message.
    let event = make_event("@bob:example.org", Vec::new());
    let mut receipts = RoomReadReceipts::default();
    receipts.account_event(&event, user_id);
    assert_eq!(receipts.num_unread, 1);
    assert_eq!(receipts.num_mentions, 0);
    assert_eq!(receipts.num_notifications, 0);

    // Push actions computed beforehand are respected.
    let event = make_event("@bob:example.org", vec![Action::Notify]);
    let mut receipts = RoomReadReceipts::default();
    receipts.account_event(&event, user_id);
    assert_eq!(receipts.num_unread, 1);
    assert_eq!(receipts.num_mentions, 0);
    assert_eq!(receipts.num_notifications, 1);

    let event = make_event("@bob:example.org", vec![Action::SetTweak(Tweak::Highlight(true))]);
    let mut receipts = RoomReadReceipts::default();
    receipts.account_event(&event, user_id);
    assert_eq!(receipts.num_unread, 1);
    assert_eq!(receipts.num_mentions, 1);
    assert_eq!(receipts.num_notifications, 0);

    let event = make_event(
        "@bob:example.org",
        vec![Action::SetTweak(Tweak::Highlight(true)), Action::Notify],
    );
    let mut receipts = RoomReadReceipts::default();
    receipts.account_event(&event, user_id);
    assert_eq!(receipts.num_unread, 1);
    assert_eq!(receipts.num_mentions, 1);
    assert_eq!(receipts.num_notifications, 1);

    // Technically this `push_actions` set would be a bug somewhere else, but let's
    // make sure to resist against it.
    let event = make_event("@bob:example.org", vec![Action::Notify, Action::Notify]);
    let mut receipts = RoomReadReceipts::default();
    receipts.account_event(&event, user_id);
    assert_eq!(receipts.num_unread, 1);
    assert_eq!(receipts.num_mentions, 0);
    assert_eq!(receipts.num_notifications, 1);
}

#[test]
fn test_find_and_count_events() {
    let ev0 = "$0";
    let user_id = "@alice:example.org";
    let no_events: [SyncTimelineEvent; 0] = [];

    // When provided with no events, we report not finding the event to which the
    // receipt relates.
    let mut receipts = RoomReadReceipts::default();
    assert!(receipts.find_and_account_events(ev0, user_id, &no_events).not());
    assert_eq!(receipts.num_unread, 0);
    assert_eq!(receipts.num_notifications, 0);
    assert_eq!(receipts.num_mentions, 0);

    // When provided with one event, that's not the receipt event, we don't count
    // it.
    fn make_event(event_id: &str) -> SyncTimelineEvent {
        SyncTimelineEvent {
            event: message("@bob:example.org", event_id, 12344446, "A"),
            push_actions: Vec::new(),
        }
    }

    let mut receipts = RoomReadReceipts {
        num_unread: 42,
        num_notifications: 13,
        num_mentions: 37,
        ..Default::default()
    };
    assert!(receipts.find_and_account_events(ev0, user_id, &[make_event("$1")]).not());
    assert_eq!(receipts.num_unread, 42);
    assert_eq!(receipts.num_notifications, 13);
    assert_eq!(receipts.num_mentions, 37);

    // When provided with one event that's the receipt target, we find it, reset the
    // count, and since there's nothing else, we stop there and end up with
    // zero counts.
    let mut receipts = RoomReadReceipts {
        num_unread: 42,
        num_notifications: 13,
        num_mentions: 37,
        ..Default::default()
    };
    assert!(receipts.find_and_account_events(ev0, user_id, &[make_event(ev0)]));
    assert_eq!(receipts.num_unread, 0);
    assert_eq!(receipts.num_notifications, 0);
    assert_eq!(receipts.num_mentions, 0);

    // When provided with multiple events and not the receipt event, we do not count
    // anything..
    let mut receipts = RoomReadReceipts {
        num_unread: 42,
        num_notifications: 13,
        num_mentions: 37,
        ..Default::default()
    };
    assert!(receipts
        .find_and_account_events(
            ev0,
            user_id,
            &[make_event("$1"), make_event("$2"), make_event("$3")],
        )
        .not());
    assert_eq!(receipts.num_unread, 42);
    assert_eq!(receipts.num_notifications, 13);
    assert_eq!(receipts.num_mentions, 37);

    // When provided with multiple events including one that's the receipt event, we
    // find it and count from it.
    let mut receipts = RoomReadReceipts {
        num_unread: 42,
        num_notifications: 13,
        num_mentions: 37,
        ..Default::default()
    };
    assert!(receipts.find_and_account_events(
        ev0,
        user_id,
        &[make_event("$1"), make_event(ev0), make_event("$2"), make_event("$3")],
    ));
    assert_eq!(receipts.num_unread, 2);
    assert_eq!(receipts.num_notifications, 0);
    assert_eq!(receipts.num_mentions, 0);
}

/// Smoke test for `compute_notifications`.
#[test]
fn test_basic_compute_notifications() {
    let user_id = "@alice:example.org";
    let other_user_id = "@bob:example.org";
    let room_id = "!room:example.org";
    let receipt_event_id = "$1";

    let mut previous_events = Known::new(&[]);

    let ev1 = sync_timeline_message(other_user_id, receipt_event_id, "A");
    let ev2 = sync_timeline_message(other_user_id, "$2", "A");

    let receipt_event = make_receipt_event_content([(
        receipt_event_id,
        ReceiptType::Read,
        user_id,
        ReceiptThread::Unthreaded,
    )]);

    let mut read_receipts = Default::default();
    compute_notifications(
        user_id,
        room_id,
        Some(&receipt_event),
        &previous_events,
        &[ev1.clone(), ev2.clone()],
        &mut read_receipts,
    );

    // It did find the receipt event (ev1).
    assert_eq!(read_receipts.num_unread, 1);

    // Receive the same receipt event, with a new sync event.
    previous_events.0.push_back(ev1);
    previous_events.0.push_back(ev2);

    let new_event = sync_timeline_message(other_user_id, "$3", "A");
    compute_notifications(
        user_id,
        room_id,
        Some(&receipt_event),
        &previous_events,
        &[new_event],
        &mut read_receipts,
    );

    // Only the new event should be added.
    assert_eq!(read_receipts.num_unread, 2);
}

/// Test that when multiple receipts come in a single event, we can still find the latest one
/// according to the sync order.
#[test]
fn test_compute_notifications_multiple_receipts_in_one_event() {
    let user_id = "@alice:example.org";
    let room_id = "!room:example.org";

    let all_events = make_test_events("@bob:example.org");
    let head_events: Vec<SyncTimelineEvent> = all_events.iter().take(2).cloned().collect();
    let tail_events: Vec<SyncTimelineEvent> = all_events.iter().skip(2).cloned().collect();

    for receipt_type_1 in [ReceiptType::Read, ReceiptType::ReadPrivate] {
        for receipt_thread_1 in &[ReceiptThread::Unthreaded, ReceiptThread::Main] {
            for receipt_type_2 in [ReceiptType::Read, ReceiptType::ReadPrivate] {
                for receipt_thread_2 in &[ReceiptThread::Unthreaded, ReceiptThread::Main] {
                    let receipt_event = make_receipt_event_content([
                        ("$2", receipt_type_1, user_id, receipt_thread_1.clone()),
                        ("$3", receipt_type_2, user_id, receipt_thread_2.clone()),
                        ("$1", receipt_type_1, user_id, receipt_thread_2.clone()),
                    ]);

                    // Receipt-only sync, no new events, all receipts refered to events that are
                    // known.
                    let mut read_receipts = RoomReadReceipts::default();
                    assert!(compute_notifications(
                        user_id,
                        room_id,
                        Some(&receipt_event),
                        &Known::new(&all_events),
                        &[],
                        &mut read_receipts,
                    ));

                    // $4 and $5 are unread.
                    assert_eq!(read_receipts.num_unread, 2);
                    assert_eq!(read_receipts.num_mentions, 0);
                    assert_eq!(read_receipts.num_notifications, 0);

                    // Receipt-only sync, mix of old and new events, all receipts refered to
                    // events that are known.
                    let mut read_receipts = RoomReadReceipts::default();
                    assert!(compute_notifications(
                        user_id,
                        room_id,
                        Some(&receipt_event),
                        &Known::new(&head_events),
                        &tail_events,
                        &mut read_receipts,
                    ));

                    // $4 and $5 are unread.
                    assert_eq!(read_receipts.num_unread, 2);
                    assert_eq!(read_receipts.num_mentions, 0);
                    assert_eq!(read_receipts.num_notifications, 0);
                }
            }
        }
    }
}

/// Updating the pending list will cause a change in the `RoomReadReceipts` fields, thus the
/// function must return true.
#[test]
fn test_compute_notifications_updated_after_field_tracking() {
    let user_id = "@alice:example.org";
    let room_id = "!room:example.org";

    let events = make_test_events("@bob:example.org");

    let receipt_event = make_receipt_event_content([(
        "$6",
        ReceiptType::Read,
        user_id,
        ReceiptThread::Unthreaded,
    )]);

    // Receipt-only sync, no new events, all receipts refered to events that are known.
    let mut read_receipts = RoomReadReceipts::default();
    assert_eq!(read_receipts.pending.len(), 0);

    assert!(compute_notifications(
        user_id,
        room_id,
        Some(&receipt_event),
        &Known::new(&events),
        &[], // no new events
        &mut read_receipts,
    ));

    // All new events are unread.
    assert_eq!(read_receipts.num_unread, 0);

    assert_eq!(read_receipts.pending.len(), 1);
    assert!(read_receipts.pending.contains("$6"));
}

#[test]
fn test_receipt_selector_create_sync_index() {
    let uid = "@bob:example.org";

    let events = make_test_events(uid);

    // An event with no id.
    let ev6 = SyncTimelineEvent::new(format!(
        r#"{{
            "sender": "{uid}",
            "type": "m.room.message",
            "origin_server_ts": 42,
            "content": {{ "body": "yolo", "msgtype": "m.text" }}
        }}"#
    ));

    let mut chained = events.clone();
    chained.push(ev6);
    let index = ReceiptSelector::create_sync_index(&chained);

    assert_eq!(*index.get("$1").unwrap(), 0);
    assert_eq!(*index.get("$2").unwrap(), 1);
    assert_eq!(*index.get("$3").unwrap(), 2);
    assert_eq!(*index.get("$4").unwrap(), 3);
    assert_eq!(*index.get("$5").unwrap(), 4);
    assert_eq!(index.get("$6"), None);

    assert_eq!(index.len(), 5);

    // Sync order are set according to the position in the vector.
    let index = ReceiptSelector::create_sync_index(&[
        events[1].clone(),
        events[2].clone(),
        events[4].clone(),
    ]);

    assert_eq!(*index.get("$2").unwrap(), 0);
    assert_eq!(*index.get("$3").unwrap(), 1);
    assert_eq!(*index.get("$5").unwrap(), 2);

    assert_eq!(index.len(), 3);
}

#[test]
fn test_receipt_selector_try_select_better() {
    let events = make_test_events("@bob:example.org");

    {
        // No initial active receipt, so the first receipt we get *will* win.
        let no_events: [SyncTimelineEvent; 0] = [];
        let mut selector = ReceiptSelector::new(&no_events, None);
        selector.try_select_better("$1", 0);
        let best_receipt = selector.finish();
        assert_eq!(best_receipt.unwrap().event_id, "$1");
    }

    {
        // $3 is at pos 2, $1 at position 0, so $3 wins => no new change.
        let mut selector = ReceiptSelector::new(&events, Some("$3"));
        selector.try_select_better("$1", 0);
        let best_receipt = selector.finish();
        assert!(best_receipt.is_none());
    }

    {
        // $3 is at pos 2, $4 at position 3, so $4 wins.
        let mut selector = ReceiptSelector::new(&events, Some("$3"));
        selector.try_select_better("$4", 3);
        let best_receipt = selector.finish();
        assert_eq!(best_receipt.unwrap().event_id, "$4");
    }
}

#[test]
fn test_receipt_selector_handle_pending_receipts() {
    let sender = "@bob:example.org";
    let ev1 = sync_timeline_message(sender, "$1", "yo");
    let ev2 = sync_timeline_message(sender, "$2", "well?");
    let events = vec![ev1, ev2];

    // Each test must be duplicated here:
    // - one time it must run with no active receipt,
    // - one time it must run with an active receipt (consider that the active receipt may be
    // better *or* less good).

    {
        // No pending receipt => no better receipt.
        let mut selector = ReceiptSelector::new(&events, None);

        let mut pending = EventIdSet::new();
        selector.handle_pending_receipts(&mut pending);

        assert!(pending.is_empty());

        let best_receipt = selector.finish();
        assert!(best_receipt.is_none());
    }

    {
        // No pending receipt, and there was an active last receipt => no better receipt.
        let mut selector = ReceiptSelector::new(&events, Some("$1"));

        let mut pending = EventIdSet::new();
        selector.handle_pending_receipts(&mut pending);

        assert!(pending.is_empty());

        let best_receipt = selector.finish();
        assert!(best_receipt.is_none());
    }

    {
        // A pending receipt for an event that is still missing => no better receipt.
        let mut selector = ReceiptSelector::new(&events, None);

        let mut pending = event_id_set(["$3"]);
        selector.handle_pending_receipts(&mut pending);

        assert_eq!(pending.len(), 1);

        let best_receipt = selector.finish();
        assert!(best_receipt.is_none());
    }

    {
        // Ditto but there was an active receipt => no better receipt.
        let mut selector = ReceiptSelector::new(&events, Some("$1"));

        let mut pending = event_id_set(["$3"]);
        selector.handle_pending_receipts(&mut pending);

        assert_eq!(pending.len(), 1);

        let best_receipt = selector.finish();
        assert!(best_receipt.is_none());
    }

    {
        // A pending receipt for an event that is present => better receipt.
        let mut selector = ReceiptSelector::new(&events, None);

        let mut pending = event_id_set(["$2"]);
        selector.handle_pending_receipts(&mut pending);

        // The receipt for $2 has been found.
        assert!(pending.is_empty());

        // The new receipt has been returned.
        let best_receipt = selector.finish();
        assert_eq!(best_receipt.unwrap().event_id, "$2");
    }

    {
        // Same, and there was an initial receipt that was less good than the one we selected =>
        // better receipt.
        let mut selector = ReceiptSelector::new(&events, Some("$1"));

        let mut pending = event_id_set(["$2"]);
        selector.handle_pending_receipts(&mut pending);

        // The receipt for $2 has been found.
        assert!(pending.is_empty());

        // The new receipt has been returned.
        let best_receipt = selector.finish();
        assert_eq!(best_receipt.unwrap().event_id, "$2");
    }

    {
        // Same, but the previous receipt was better => no better receipt.
        let mut selector = ReceiptSelector::new(&events, Some("$2"));

        let mut pending = event_id_set(["$1"]);
        selector.handle_pending_receipts(&mut pending);

        // The receipt for $1 has been found.
        assert!(pending.is_empty());

        let best_receipt = selector.finish();
        assert!(best_receipt.is_none());
    }

    {
        // Mixed found and not found receipt => better receipt.
        let mut selector = ReceiptSelector::new(&events, None);

        let mut pending = event_id_set(["$1", "$3"]);
        selector.handle_pending_receipts(&mut pending);

        // The receipt for $1 has been found, but not that for $3.
        assert_eq!(pending.len(), 1);
        assert!(pending.contains("$3"));

        let best_receipt = selector.finish();
        assert_eq!(best_receipt.unwrap().event_id, "$1");
    }
}

#[test]
fn test_receipt_selector_handle_new_receipt() {
    let myself = "@alice:example.org";
    let events = make_test_events("@bob:example.org");

    {
        // Thread receipts are ignored.
        let mut selector = ReceiptSelector::new(&events, None);

        let receipt_event = make_receipt_event_content([(
            "$5",
            ReceiptType::Read,
            myself,
            ReceiptThread::Thread("$2".to_owned()),
        )]);

        let pending = selector.handle_new_receipt(myself, &receipt_event);
        assert!(pending.is_empty());

        let best_receipt = selector.finish();
        assert!(best_receipt.is_none());
    }

    for receipt_type in [ReceiptType::Read, ReceiptType::ReadPrivate] {
        for receipt_thread in [ReceiptThread::Main, ReceiptThread::Unthreaded] {
            {
                // Receipt for an event we don't know about => it's pending, and no better
                // receipt.
                let mut selector = ReceiptSelector::new(&events, None);

                let receipt_event = make_receipt_event_content([(
                    "$6",
                    receipt_type,
                    myself,
                    receipt_thread.clone(),
                )]);

                let pending = selector.handle_new_receipt(myself, &receipt_event);
                assert_eq!(pending[0], "$6");
                assert_eq!(pending.len(), 1);

                let best_receipt = selector.finish();
                assert!(best_receipt.is_none());
            }

            {
                // Receipt for an event we knew about, no initial active receipt => better
                // receipt.
                let mut selector = ReceiptSelector::new(&events, None);

                let receipt_event = make_receipt_event_content([(
                    "$3",
                    receipt_type,
                    myself,
                    receipt_thread.clone(),
                )]);

                let pending = selector.handle_new_receipt(myself, &receipt_event);
                assert!(pending.is_empty());

                let best_receipt = selector.finish();
                assert_eq!(best_receipt.unwrap().event_id, "$3");
            }

            {
                // Receipt for an event we knew about, initial active receipt was better => no
                // better receipt.
                let mut selector = ReceiptSelector::new(&events, Some("$4"));

                let receipt_event = make_receipt_event_content([(
                    "$3",
                    receipt_type,
                    myself,
                    receipt_thread.clone(),
                )]);

                let pending = selector.handle_new_receipt(myself, &receipt_event);
                assert!(pending.is_empty());

                let best_receipt = selector.finish();
                assert!(best_receipt.is_none());
            }

            {
                // Receipt for an event we knew about, initial active receipt was less good => new
                // better receipt.
                let mut selector = ReceiptSelector::new(&events, Some("$2"));

                let receipt_event = make_receipt_event_content([(
                    "$3",
                    receipt_type,
                    myself,
                    receipt_thread.clone(),
                )]);

                let pending = selector.handle_new_receipt(myself, &receipt_event);
                assert!(pending.is_empty());

                let best_receipt = selector.finish();
                assert_eq!(best_receipt.unwrap().event_id, "$3");
            }
        }
    }

    {
        // Final boss: multiple receipts in the receipt event, the best one is used => new better
        // receipt.
        let mut selector = ReceiptSelector::new(&events, Some("$2"));

        let receipt_event = make_receipt_event_content([
            ("$4", ReceiptType::ReadPrivate, myself, ReceiptThread::Unthreaded),
            ("$6", ReceiptType::ReadPrivate, myself, ReceiptThread::Main),
            ("$3", ReceiptType::Read, myself, ReceiptThread::Main),
        ]);

        let pending = selector.handle_new_receipt(myself, &receipt_event);
        assert_eq!(pending.len(), 1);
        assert_eq!(pending[0], "$6");

        let best_receipt = selector.finish();
        assert_eq!(best_receipt.unwrap().event_id, "$4");
    }
}
