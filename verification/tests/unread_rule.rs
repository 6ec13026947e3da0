use read_receipts::timeline::{Action, DecodedEvent, SyncTimelineEvent, TimelineEvent, Tweak};
use read_receipts::unread::{
    event_marks_as_unread, marks_as_unread, type_marks_as_unread, DeserializedEvent, EventBody,
    MessageContent,
};

const ALICE: &str = "@alice:example.org";
const BOB: &str = "@bob:example.org";

/// A message-like event of Bob's, as JSON.
fn event(event_type: &str, content: &str) -> String {
    format!(
        r#"{{
            "sender": "{BOB}",
            "type": "{event_type}",
            "event_id": "$ida",
            "origin_server_ts": 42,
            "content": {content}
        }}"#
    )
}

fn unread(event_type: &str, content: &str) -> bool {
    marks_as_unread(&event(event_type, content), ALICE)
}

const REFERENCE: &str = r#"{ "rel_type": "m.reference", "event_id": "$1" }"#;
const REPLACE: &str = r#"{ "rel_type": "m.replace", "event_id": "$1" }"#;

fn poll() -> &'static str {
    r#"
        "m.text": [{ "body": "Weather?" }],
        "m.poll": {
            "question": { "m.text": [{ "body": "Weather?" }] },
            "answers": [{ "m.id": "fine", "m.text": [{ "body": "Fine." }] }]
        }
    "#
}

fn unstable_poll() -> &'static str {
    r#"
        "org.matrix.msc1767.text": "Weather?",
        "org.matrix.msc3381.poll.start": {
            "question": { "org.matrix.msc1767.text": "Weather?" },
            "answers": [{ "id": "fine", "org.matrix.msc1767.text": "Fine." }]
        }
    "#
}

#[test]
fn extensible_messages_mark_as_unread() {
    let content = r#"{ "org.matrix.msc1767.text": [{ "body": "Hello" }] }"#;
    assert!(unread("org.matrix.msc1767.message", content));
    // The stable name of the same type.
    assert!(unread("m.message", content));
}

#[test]
fn edited_extensible_messages_dont_mark_as_unread() {
    let content = format!(
        r#"{{
            "org.matrix.msc1767.text": [{{ "body": "Hello" }}],
            "m.new_content": {{ "org.matrix.msc1767.text": [{{ "body": "Hello" }}] }},
            "m.relates_to": {REPLACE}
        }}"#
    );
    assert!(!unread("org.matrix.msc1767.message", &content));
}

#[test]
fn new_polls_mark_as_unread() {
    assert!(unread("m.poll.start", &format!("{{ {} }}", poll())));
    assert!(unread("org.matrix.msc3381.poll.start", &format!("{{ {} }}", unstable_poll())));
}

#[test]
fn edited_polls_dont_mark_as_unread() {
    let content = format!(
        r#"{{ {}, "m.new_content": {{ {} }}, "m.relates_to": {REPLACE} }}"#,
        poll(),
        poll()
    );
    assert!(!unread("m.poll.start", &content));

    let content = format!(
        r#"{{ "m.new_content": {{ {} }}, "m.relates_to": {REPLACE} }}"#,
        unstable_poll()
    );
    assert!(!unread("org.matrix.msc3381.poll.start", &content));
}

#[test]
fn poll_ends_mark_as_unread() {
    let content =
        format!(r#"{{ "m.text": [{{ "body": "Over" }}], "m.relates_to": {REFERENCE} }}"#);
    assert!(unread("m.poll.end", &content));

    let content = format!(
        r#"{{
            "org.matrix.msc1767.text": "Over",
            "org.matrix.msc3381.poll.end": {{}},
            "m.relates_to": {REFERENCE}
        }}"#
    );
    assert!(unread("org.matrix.msc3381.poll.end", &content));
}

#[test]
fn poll_responses_dont_mark_as_unread() {
    let content = format!(r#"{{ "m.selections": ["fine"], "m.relates_to": {REFERENCE} }}"#);
    assert!(!unread("m.poll.response", &content));
}

#[test]
fn encrypted_events_mark_as_unread_unless_they_are_edits() {
    let scheme = r#"
        "algorithm": "m.megolm.v1.aes-sha2",
        "ciphertext": "text",
        "device_id": "DEVICE",
        "sender_key": "key",
        "session_id": "session"
    "#;
    assert!(unread("m.room.encrypted", &format!("{{ {scheme} }}")));
    let edit = format!(r#"{{ {scheme}, "m.relates_to": {REPLACE} }}"#);
    assert!(!unread("m.room.encrypted", &edit));
}

#[test]
fn stickers_mark_as_unread() {
    let content = r#"{ "body": "Hello", "info": {}, "url": "mxc://matrix.org/abc" }"#;
    assert!(unread("m.sticker", content));
}

#[test]
fn replies_mark_as_unread() {
    let content = r#"{
        "body": "A",
        "msgtype": "m.text",
        "m.relates_to": { "m.in_reply_to": { "event_id": "$1" } }
    }"#;
    assert!(unread("m.room.message", content));
}

#[test]
fn redacted_messages_dont_mark_as_unread() {
    let json = format!(
        r#"{{
            "sender": "{BOB}",
            "type": "m.room.message",
            "event_id": "$ida",
            "origin_server_ts": 42,
            "content": {{}},
            "unsigned": {{
                "redacted_because": {{
                    "type": "m.room.redaction",
                    "content": {{}},
                    "redacts": "$ida",
                    "event_id": "$2",
                    "origin_server_ts": 43,
                    "sender": "{BOB}"
                }}
            }}
        }}"#
    );
    assert!(!marks_as_unread(&json, ALICE));
}

#[test]
fn calls_dont_mark_as_unread() {
    let content = r#"{ "call_id": "1", "version": 0, "lifetime": 60000,
        "offer": { "type": "offer", "sdp": "" } }"#;
    assert!(!unread("m.call.invite", content));
}

#[test]
fn unknown_types_dont_mark_as_unread() {
    assert!(!unread("org.example.custom", r#"{ "body": "A" }"#));
}

#[test]
fn what_is_no_event_doesnt_mark_as_unread() {
    assert!(!marks_as_unread("", ALICE));
    assert!(!marks_as_unread("{", ALICE));
    assert!(!marks_as_unread("{}", ALICE));
    // A message without a body.
    assert!(!unread("m.room.message", r#"{ "msgtype": "m.text" }"#));
}

#[test]
fn notable_types() {
    for event_type in [
        "org.matrix.msc1767.message",
        "m.poll.start",
        "org.matrix.msc3381.poll.start",
        "m.poll.end",
        "org.matrix.msc3381.poll.end",
        "m.room.encrypted",
        "m.room.message",
        "m.sticker",
    ] {
        assert!(type_marks_as_unread(event_type));
    }
    for event_type in [
        "m.call.answer",
        "m.call.invite",
        "m.call.hangup",
        "m.call.candidates",
        "m.call.negotiate",
        "m.call.reject",
        "m.call.select_answer",
        "m.poll.response",
        "org.matrix.msc3381.poll.response",
        "m.reaction",
        "m.room.redaction",
        "m.key.verification.start",
        "m.key.verification.ready",
        "m.key.verification.cancel",
        "m.key.verification.accept",
        "m.key.verification.done",
        "m.key.verification.mac",
        "m.key.verification.key",
        "",
        "m.room.message.",
    ] {
        assert!(!type_marks_as_unread(event_type));
    }
}

fn plain() -> MessageContent {
    MessageContent {
        is_replacement: false,
        is_poll_replacement: false,
        is_unstable_poll_replacement: false,
    }
}

fn deserialized(content: Option<MessageContent>) -> DeserializedEvent {
    DeserializedEvent {
        sender: BOB.to_owned(),
        body: EventBody::MessageLike { event_type: "m.room.message".to_owned(), content },
    }
}

#[test]
fn rule_on_deserialized_events() {
    let plain = plain();
    assert!(event_marks_as_unread(&deserialized(Some(plain)), ALICE));
    // One's own events.
    assert!(!event_marks_as_unread(&deserialized(Some(plain)), BOB));
    // Redactions.
    assert!(!event_marks_as_unread(&deserialized(None), ALICE));
    // Edits.
    let edit = MessageContent { is_replacement: true, ..plain };
    assert!(!event_marks_as_unread(&deserialized(Some(edit)), ALICE));
    let poll_edit = MessageContent { is_poll_replacement: true, ..plain };
    assert!(!event_marks_as_unread(&deserialized(Some(poll_edit)), ALICE));
    let poll_edit = MessageContent { is_unstable_poll_replacement: true, ..plain };
    assert!(!event_marks_as_unread(&deserialized(Some(poll_edit)), ALICE));
    // State events.
    let state = DeserializedEvent { sender: BOB.to_owned(), body: EventBody::State };
    assert!(!event_marks_as_unread(&state, ALICE));
}

#[test]
fn decoded_events_follow_the_same_rule() {
    let plain = plain();
    let mut event = DecodedEvent {
        event_id: Some("$1".to_owned()),
        event: Some(deserialized(Some(plain))),
        push_actions: vec![Action::Notify],
    };
    assert_eq!(event.event_id(), Some("$1".to_owned()));
    assert_eq!(*event.push_actions(), vec![Action::Notify]);
    assert!(event.marks_as_unread(ALICE));
    assert!(!event.marks_as_unread(BOB));
    event.event = None;
    assert!(!event.marks_as_unread(ALICE));
}

#[test]
fn event_ids_are_read_from_the_text() {
    let id = |json: &str| SyncTimelineEvent::new(json.to_owned()).event_id();
    assert_eq!(id(r#"{ "event_id": "$1" }"#), Some("$1".to_owned()));
    assert_eq!(id(r#"{ "a": 1, "event_id": "$1:example.org" }"#), Some("$1:example.org".to_owned()));
    // No id, not a string, not the form of an id, no object, no JSON.
    assert_eq!(id("{}"), None);
    assert_eq!(id(r#"{ "event_id": null }"#), None);
    assert_eq!(id(r#"{ "event_id": 1 }"#), None);
    assert_eq!(id(r#"{ "event_id": "1" }"#), None);
    assert_eq!(id("[]"), None);
    assert_eq!(id(""), None);
}

#[test]
fn push_actions() {
    assert!(Action::Notify.should_notify());
    assert!(!Action::Notify.is_highlight());
    let highlight = Action::SetTweak(Tweak::Highlight(true));
    assert!(!highlight.should_notify());
    assert!(highlight.is_highlight());
    for action in [
        Action::SetTweak(Tweak::Highlight(false)),
        Action::SetTweak(Tweak::Sound),
        Action::SetTweak(Tweak::Custom),
        Action::Custom,
    ] {
        assert!(!action.should_notify());
        assert!(!action.is_highlight());
    }
}
