use eyeball_im::Vector;
use read_receipts::event_id_set::EventIdSet;
use read_receipts::notifications::{
    compute_notifications, match_receipts, try_compute_notifications, try_update_read_receipts,
    update_read_receipts,
};
use read_receipts::provider::PreviousEventsProvider;
use read_receipts::receipt::{ReceiptEventContent, ReceiptThread, ReceiptType};
use read_receipts::room::{LatestReadReceipt, RoomReadReceipts};
use read_receipts::selector::ReceiptSelector;
use read_receipts::text::comes_before;
use read_receipts::timeline::{Action, DecodedEvent, SyncTimelineEvent, Tweak};
use read_receipts::unread::{DeserializedEvent, EventBody, MessageContent};

const ALICE: &str = "@alice:example.org";
const BOB: &str = "@bob:example.org";
const ROOM: &str = "!room:example.org";

/// A message of Bob's.
fn message(event_id: &str) -> SyncTimelineEvent {
    SyncTimelineEvent::new(format!(
        r#"{{
            "sender": "{BOB}",
            "type": "m.room.message",
            "event_id": "{event_id}",
            "origin_server_ts": 42,
            "content": {{ "body": "A", "msgtype": "m.text" }}
        }}"#
    ))
}

fn messages(event_ids: &[&str]) -> Vec<SyncTimelineEvent> {
    event_ids.iter().map(|id| message(id)).collect()
}

/// A message of Bob's whose text has been read.
fn decoded(event_id: &str) -> DecodedEvent {
    DecodedEvent {
        event_id: Some(event_id.to_owned()),
        event: Some(DeserializedEvent {
            sender: BOB.to_owned(),
            body: EventBody::MessageLike {
                event_type: "m.room.message".to_owned(),
                content: Some(MessageContent {
                    is_replacement: false,
                    is_poll_replacement: false,
                    is_unstable_poll_replacement: false,
                }),
            },
        }),
        push_actions: Vec::new(),
    }
}

fn receipts_of(user_id: &str, event_ids: &[&str]) -> ReceiptEventContent {
    let mut content = ReceiptEventContent::new();
    for id in event_ids {
        content.insert(
            (*id).to_owned(),
            ReceiptType::Read,
            user_id.to_owned(),
            ReceiptThread::Unthreaded,
        );
    }
    content
}

/// A room of which every event stays known.
struct Room {
    known: Vector<SyncTimelineEvent>,
    receipts: RoomReadReceipts,
}

impl PreviousEventsProvider for Room {
    fn for_room(&self, room_id: &str) -> Vector<SyncTimelineEvent> {
        assert_eq!(room_id, ROOM);
        self.known.clone()
    }
}

impl Room {
    fn new() -> Self {
        Room { known: Vector::new(), receipts: RoomReadReceipts::default() }
    }

    fn sync(&mut self, events: &[SyncTimelineEvent], receipts: &[&str]) -> bool {
        let content = receipts_of(ALICE, receipts);
        let mut updated = self.receipts.clone();
        let changed =
            compute_notifications(ALICE, ROOM, Some(&content), &*self, events, &mut updated);
        self.receipts = updated;
        self.known.extend(events.iter().cloned());
        changed
    }

    fn active(&self) -> Option<&str> {
        self.receipts.latest_active.as_ref().map(|receipt| receipt.event_id.as_str())
    }

    fn pending(&self) -> Vec<&str> {
        (0..self.receipts.pending.len()).map(|i| self.receipts.pending.get(i).as_str()).collect()
    }
}

#[test]
fn counts_stay_accurate_over_syncs() {
    let mut room = Room::new();
    assert!(room.sync(&messages(&["$1", "$2"]), &[]));
    assert_eq!(room.receipts.num_unread, 2);
    assert!(room.sync(&messages(&["$3"]), &["$2"]));
    assert_eq!(room.receipts.num_unread, 1);
    assert!(room.sync(&messages(&["$4", "$5"]), &[]));
    assert_eq!(room.receipts.num_unread, 3);
    assert!(room.sync(&[], &["$5"]));
    assert_eq!(room.receipts.num_unread, 0);
    assert_eq!(room.active(), Some("$5"));
}

#[test]
fn active_receipt_moves_forward_only() {
    let mut room = Room::new();
    assert!(room.sync(&messages(&["$1", "$2", "$3"]), &["$2"]));
    assert_eq!(room.active(), Some("$2"));
    assert!(!room.sync(&[], &["$1"]));
    assert_eq!(room.active(), Some("$2"));
    assert_eq!(room.receipts.num_unread, 1);
    assert!(room.sync(&[], &["$1", "$3"]));
    assert_eq!(room.active(), Some("$3"));
    assert_eq!(room.receipts.num_unread, 0);
}

#[test]
fn same_receipts_again_change_nothing() {
    let mut room = Room::new();
    assert!(room.sync(&messages(&["$1", "$2"]), &["$1", "$9"]));
    assert_eq!(room.receipts.num_unread, 1);
    assert_eq!(room.pending(), ["$9"]);
    assert!(!room.sync(&[], &["$1", "$9"]));
    assert_eq!(room.receipts.num_unread, 1);
    assert_eq!(room.pending(), ["$9"]);
    // With a newer event, only that is counted.
    assert!(room.sync(&messages(&["$3"]), &["$1", "$9"]));
    assert_eq!(room.receipts.num_unread, 2);
}

#[test]
fn early_receipts_take_effect_when_their_event_comes() {
    let mut room = Room::new();
    assert!(room.sync(&messages(&["$1"]), &["$3"]));
    assert_eq!(room.receipts.num_unread, 1);
    assert_eq!(room.active(), None);
    assert_eq!(room.pending(), ["$3"]);
    assert!(room.sync(&messages(&["$2", "$3", "$4"]), &[]));
    assert_eq!(room.receipts.num_unread, 1);
    assert_eq!(room.active(), Some("$3"));
    assert!(room.pending().is_empty());
}

#[test]
fn dropping_a_pending_receipt_is_a_change() {
    let mut room = Room::new();
    assert!(room.sync(&messages(&["$1", "$2"]), &["$2"]));
    room.receipts.pending.insert("$1".to_owned());
    // The receipt for $1 is matched, though it is not better than that for $2.
    assert!(room.sync(&[], &[]));
    assert!(room.pending().is_empty());
    assert_eq!(room.active(), Some("$2"));
    assert_eq!(room.receipts.num_unread, 0);
    assert!(!room.sync(&[], &[]));
}

#[test]
fn events_that_dont_count_are_no_change() {
    let mut room = Room::new();
    let own = SyncTimelineEvent::new(format!(
        r#"{{ "sender": "{ALICE}", "type": "m.room.message", "event_id": "$1",
            "origin_server_ts": 42, "content": {{ "body": "A", "msgtype": "m.text" }} }}"#
    ));
    assert!(!room.sync(&[own], &[]));
    assert_eq!(room.receipts.num_unread, 0);
}

#[test]
fn batches_add_up() {
    let mut one = Room::new();
    one.sync(&messages(&["$1", "$2", "$3"]), &[]);
    let mut two = Room::new();
    two.sync(&messages(&["$1"]), &[]);
    two.sync(&messages(&["$2", "$3"]), &[]);
    assert_eq!(one.receipts.num_unread, 3);
    assert_eq!(two.receipts.num_unread, 3);
}

#[test]
fn unknown_active_receipt_is_beaten_by_any_known_one() {
    let mut room = Room::new();
    room.receipts.num_unread = 7;
    room.receipts.latest_active = Some(LatestReadReceipt { event_id: "$0".to_owned() });
    assert!(room.sync(&messages(&["$1", "$2"]), &["$1"]));
    assert_eq!(room.active(), Some("$1"));
    assert_eq!(room.receipts.num_unread, 1);
}

#[test]
fn event_that_stands_twice_counts_from_its_first_position() {
    let mut room = Room::new();
    assert!(room.sync(&messages(&["$1", "$2", "$1", "$3"]), &["$1"]));
    assert_eq!(room.active(), Some("$1"));
    assert_eq!(room.receipts.num_unread, 3);
    // Its position in sync order is the last one.
    let index = ReceiptSelector::create_sync_index(&messages(&["$1", "$2", "$1", "$3"]));
    assert_eq!(*index.get("$1").unwrap(), 2);
    assert_eq!(index.len(), 3);
}

#[test]
fn receipts_of_others_and_of_threads_are_ignored() {
    let mut content = receipts_of(BOB, &["$1"]);
    content.insert(
        "$2".to_owned(),
        ReceiptType::ReadPrivate,
        ALICE.to_owned(),
        ReceiptThread::Thread("$1".to_owned()),
    );
    content.insert(
        "$2".to_owned(),
        ReceiptType::Read,
        ALICE.to_owned(),
        ReceiptThread::Custom("custom".to_owned()),
    );
    let mut receipts = RoomReadReceipts::default();
    assert!(compute_notifications(
        ALICE,
        ROOM,
        Some(&content),
        &(),
        &messages(&["$1", "$2"]),
        &mut receipts,
    ));
    assert_eq!(receipts.num_unread, 2);
    assert!(receipts.latest_active.is_none());
    assert!(receipts.pending.is_empty());
}

#[test]
fn public_and_private_receipt_for_one_event() {
    let mut content = receipts_of(ALICE, &["$9"]);
    content.insert(
        "$9".to_owned(),
        ReceiptType::ReadPrivate,
        ALICE.to_owned(),
        ReceiptThread::Main,
    );
    let mut selector = ReceiptSelector::new(&messages(&["$1"]), None);
    assert_eq!(selector.handle_new_receipt(ALICE, &content), ["$9", "$9"]);
    let mut receipts = RoomReadReceipts::default();
    compute_notifications(ALICE, ROOM, Some(&content), &(), &messages(&["$1"]), &mut receipts);
    assert_eq!(receipts.pending.len(), 1);
}

#[test]
fn new_pending_receipts_come_in_order_of_their_events() {
    let content = receipts_of(ALICE, &["$c", "$a", "$ab", "$b"]);
    let mut selector = ReceiptSelector::new(&messages(&["$b"]), None);
    assert_eq!(selector.handle_new_receipt(ALICE, &content), ["$a", "$ab", "$c"]);
    assert_eq!(selector.finish().unwrap().event_id, "$b");
}

#[test]
fn later_receipt_replaces_the_earlier_one_of_its_type() {
    let mut content = receipts_of(ALICE, &["$1"]);
    content.insert(
        "$1".to_owned(),
        ReceiptType::Read,
        ALICE.to_owned(),
        ReceiptThread::Thread("$0".to_owned()),
    );
    let events = content.events();
    assert_eq!(events.len(), 1);
    assert_eq!(events[0].event_id, "$1");
    assert!(!events[0].is_read_by(ReceiptType::Read, ALICE));
    assert!(!events[0].is_read_by(ReceiptType::ReadPrivate, ALICE));
}

#[test]
fn no_receipts_and_no_earlier_events() {
    let mut receipts = RoomReadReceipts::default();
    assert!(!compute_notifications(ALICE, ROOM, None, &(), &[], &mut receipts));
    assert!(compute_notifications(
        ALICE,
        ROOM,
        None,
        &(),
        &messages(&["$1", "$2"]),
        &mut receipts
    ));
    assert_eq!(receipts.num_unread, 2);
}

#[test]
fn push_actions_count_once_per_event() {
    let mut event = message("$1");
    event.push_actions = vec![
        Action::Notify,
        Action::SetTweak(Tweak::Highlight(true)),
        Action::SetTweak(Tweak::Sound),
        Action::SetTweak(Tweak::Highlight(true)),
        Action::Notify,
    ];
    let mut room = Room::new();
    assert!(room.sync(&[event], &[]));
    assert_eq!(room.receipts.num_unread, 1);
    assert_eq!(room.receipts.num_notifications, 1);
    assert_eq!(room.receipts.num_mentions, 1);
    room.receipts.reset();
    assert_eq!(room.receipts.num_unread, 0);
    assert_eq!(room.receipts.num_notifications, 0);
    assert_eq!(room.receipts.num_mentions, 0);
}

#[test]
fn decoded_events_are_accounted_alike() {
    let all = [decoded("$1"), decoded("$2"), decoded("$3")];
    let mut receipts = RoomReadReceipts::default();
    let content = receipts_of(ALICE, &["$1"]);
    assert!(update_read_receipts(ALICE, Some(&content), &all, &all[2..], &mut receipts));
    assert_eq!(receipts.num_unread, 2);
    assert_eq!(receipts.latest_active.unwrap().event_id, "$1");
}

#[test]
fn receipts_of_other_types_are_ignored() {
    let mut content = ReceiptEventContent::new();
    for id in ["$1", "$9"] {
        content.insert(
            id.to_owned(),
            ReceiptType::Custom,
            ALICE.to_owned(),
            ReceiptThread::Unthreaded,
        );
    }
    let events = content.events();
    assert_eq!(events.len(), 2);
    assert!(events[0].is_read_by(ReceiptType::Custom, ALICE));
    assert!(!events[0].is_read_by(ReceiptType::Custom, BOB));
    assert!(!events[0].is_read_by(ReceiptType::Read, ALICE));
    assert!(!events[0].is_read_by(ReceiptType::ReadPrivate, ALICE));

    let mut receipts = RoomReadReceipts::default();
    assert!(compute_notifications(
        ALICE,
        ROOM,
        Some(&content),
        &(),
        &messages(&["$1", "$2"]),
        &mut receipts,
    ));
    assert_eq!(receipts.num_unread, 2);
    assert!(receipts.latest_active.is_none());
    assert!(receipts.pending.is_empty());
}

#[test]
fn matched_receipts_leave_the_others_pending() {
    let mut pending = EventIdSet::new();
    for id in ["$2", "$7", "$8"] {
        pending.insert(id.to_owned());
    }
    let content = receipts_of(ALICE, &["$1", "$8", "$9"]);
    let events = messages(&["$1", "$2", "$3"]);
    let (active, changed) = match_receipts(ALICE, Some(&content), &events, &None, &mut pending);
    assert_eq!(active.unwrap().event_id, "$2");
    assert!(changed);
    assert_eq!(pending.len(), 3);
    assert_eq!(pending.get(0), "$7");
    assert_eq!(pending.get(1), "$8");
    assert_eq!(pending.get(2), "$9");

    // The same receipts again change nothing.
    let latest = Some(LatestReadReceipt { event_id: "$2".to_owned() });
    let (active, changed) = match_receipts(ALICE, Some(&content), &events, &latest, &mut pending);
    assert!(active.is_none());
    assert!(!changed);
    assert_eq!(pending.len(), 3);
}

#[test]
fn full_counters_are_refused() {
    let events = messages(&["$1", "$2"]);
    let mut receipts = RoomReadReceipts { num_unread: u64::MAX - 1, ..Default::default() };
    receipts.pending.insert("$1".to_owned());
    receipts.latest_active = Some(LatestReadReceipt { event_id: "$1".to_owned() });
    assert_eq!(try_compute_notifications(ALICE, ROOM, None, &(), &events, &mut receipts), None);
    assert_eq!(receipts.num_unread, u64::MAX - 1);
    assert_eq!(receipts.pending.len(), 1);
    receipts.num_unread = u64::MAX - 2;
    assert_eq!(
        try_compute_notifications(ALICE, ROOM, None, &(), &events, &mut receipts),
        Some(true)
    );
    assert_eq!(receipts.num_unread, u64::MAX);
    assert!(receipts.pending.is_empty());
}

#[test]
fn each_counter_is_held_against_what_there_is_to_count() {
    // The events notify nobody and mention nobody.
    let events = messages(&["$1", "$2"]);
    let mut receipts = RoomReadReceipts {
        num_notifications: u64::MAX,
        num_mentions: u64::MAX,
        ..Default::default()
    };
    assert_eq!(
        try_compute_notifications(ALICE, ROOM, None, &(), &events, &mut receipts),
        Some(true)
    );
    assert_eq!(receipts.num_unread, 2);
    assert_eq!(receipts.num_notifications, u64::MAX);
    assert_eq!(receipts.num_mentions, u64::MAX);

    let mut loud = message("$3");
    loud.push_actions.push(Action::Notify);
    assert_eq!(
        try_update_read_receipts(ALICE, None, &[loud.clone()], &[loud], &mut receipts),
        None
    );
    let mut mention = message("$4");
    mention.push_actions.push(Action::SetTweak(Tweak::Highlight(true)));
    assert_eq!(
        try_update_read_receipts(ALICE, None, &[mention.clone()], &[mention], &mut receipts),
        None
    );
    assert_eq!(receipts.num_unread, 2);
}

#[test]
fn new_active_receipt_resets_full_counters() {
    let events = messages(&["$1", "$2", "$3"]);
    let mut receipts = RoomReadReceipts { num_unread: u64::MAX, ..Default::default() };
    let content = receipts_of(ALICE, &["$1"]);
    assert_eq!(
        try_compute_notifications(ALICE, ROOM, Some(&content), &(), &events, &mut receipts),
        Some(true)
    );
    assert_eq!(receipts.num_unread, 2);
    assert_eq!(receipts.latest_active.unwrap().event_id, "$1");
}

#[test]
fn sets_of_event_ids() {
    let mut set = EventIdSet::new();
    assert!(set.is_empty());
    assert!(set.insert("$b".to_owned()));
    assert!(set.insert("$a".to_owned()));
    assert!(set.insert("$c".to_owned()));
    assert!(!set.insert("$b".to_owned()));
    assert_eq!(set.len(), 3);
    assert_eq!(set.get(0), "$a");
    assert_eq!(set.get(1), "$b");
    assert_eq!(set.get(2), "$c");
    let copy = set.clone();
    set.remove_at(1);
    assert_eq!(set.len(), 2);
    assert!(!set.contains("$b"));
    assert!(set.contains("$a") && set.contains("$c"));
    assert!(copy.contains("$b"));
    assert!(EventIdSet::default().is_empty());
}

#[test]
fn order_of_strings() {
    let strings = ["", "$", "$1", "$10", "$2", "$A", "$a", "$é", "$中", "$😀"];
    for (i, a) in strings.iter().enumerate() {
        for (j, b) in strings.iter().enumerate() {
            assert_eq!(comes_before(a, b), i < j);
            assert_eq!(comes_before(a, b), a < b);
        }
    }
}
