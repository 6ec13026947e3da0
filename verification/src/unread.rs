//! Which events are worth marking a room as unread.
use ruma::events::{
    poll::start::PollStartEventContent, poll::unstable_start::UnstablePollStartEventContent,
    room::encrypted::Relation as AnyRelation, room::message::Relation,
    AnyMessageLikeEventContent, AnySyncTimelineEvent,
};
use ruma::serde::Raw;
use vstd::prelude::*;

verus! {

/// What the unread rule reads of a timeline event, once the event's JSON text has been
/// deserialized.
#[derive(Clone, Debug)]
pub struct DeserializedEvent {
    /// The id of the user who sent the event.
    pub sender: String,
    /// What kind of event it is.
    pub body: EventBody,
}

/// The two kinds of timeline events.
#[derive(Clone, Debug)]
pub enum EventBody {
    /// A state event.
    State,
    /// A message-like event.
    MessageLike {
        /// The event's type, such as `m.room.message`.
        event_type: String,
        /// The event's content, or `None` for an event that was redacted.
        content: Option<MessageContent>,
    },
}

/// What the unread rule reads of the content of a message-like event.
#[derive(Clone, Copy, Debug, PartialEq, Eq, Structural)]
pub struct MessageContent {
    /// Whether the content's relation is a replacement, that is, whether the event is an edit.
    /// The relation does not cover poll starts.
    pub is_replacement: bool,
    /// Whether the content is that of a poll start that relates to an earlier one as its
    /// replacement.
    pub is_poll_replacement: bool,
    /// Whether the content is that of an unstable poll start that replaces an earlier one.
    pub is_unstable_poll_replacement: bool,
}

/// The mathematical value of a [`DeserializedEvent`].
pub struct DeserializedEventView {
    pub sender: Seq<char>,
    pub body: EventBodyView,
}

/// The mathematical value of an [`EventBody`].
pub enum EventBodyView {
    State,
    MessageLike { event_type: Seq<char>, content: Option<MessageContent> },
}

impl View for EventBody {
    type V = EventBodyView;

    open spec fn view(&self) -> EventBodyView {
        match *self {
            EventBody::State => EventBodyView::State,
            EventBody::MessageLike { event_type, content } => EventBodyView::MessageLike {
                event_type: event_type@,
                content,
            },
        }
    }
}

impl View for DeserializedEvent {
    type V = DeserializedEventView;

    open spec fn view(&self) -> DeserializedEventView {
        DeserializedEventView { sender: self.sender@, body: self.body@ }
    }
}

impl DeepView for DeserializedEvent {
    type V = DeserializedEventView;

    open spec fn deep_view(&self) -> DeserializedEventView {
        self@
    }
}

/// What `ruma` makes of the JSON text of a timeline event: `None` where the text is not that of
/// an `AnySyncTimelineEvent`.
pub uninterp spec fn deserialized_event(json: Seq<char>) -> Option<DeserializedEventView>;

/// Deserializes the JSON text of a timeline event with `Raw::<AnySyncTimelineEvent>::deserialize`
/// of `ruma`, and reads from the event what the unread rule needs: its sender, whether it is a
/// state event, and for a message-like event its type, whether it was redacted
/// (`original_content`), and whether its content is a replacement (`relation`, or the content
/// of a poll start).
///
/// Claimed of it: the outcome is a function of the text alone, `deserialized_event`. Nothing is
/// said of which texts are those of an event.
#[verifier::external_body]
fn deserialize_event(json: &str) -> (event: Option<DeserializedEvent>)
    ensures
        event.deep_view() == deserialized_event(json@),
{
    let raw = Raw::<AnySyncTimelineEvent>::from_json_string(json.to_owned()).ok()?;
    let event = raw.deserialize().ok()?;
    let sender = event.sender().to_string();
    let AnySyncTimelineEvent::MessageLike(event) = event else {
        return Some(DeserializedEvent { sender, body: EventBody::State });
    };
    let content = event.original_content().map(|content| MessageContent {
        is_replacement: matches!(content.relation(), Some(AnyRelation::Replacement(_))),
        is_poll_replacement: matches!(content, AnyMessageLikeEventContent::PollStart(
            PollStartEventContent { relates_to: Some(Relation::Replacement(_)), .. })),
        is_unstable_poll_replacement: matches!(content, AnyMessageLikeEventContent::UnstablePollStart(
            UnstablePollStartEventContent::Replacement(_))),
    });
    let body = EventBody::MessageLike { event_type: event.event_type().to_string(), content };
    Some(DeserializedEvent { sender, body })
}

/// Whether message-like events of type `event_type` are worth marking a room as unread.
/// What is not listed is not: calls, reactions, redactions, poll responses, key verification,
/// and every type that is not known.
pub open spec fn is_notable_type(event_type: Seq<char>) -> bool {
    ||| event_type == "org.matrix.msc1767.message"@
    ||| event_type == "m.poll.start"@
    ||| event_type == "org.matrix.msc3381.poll.start"@
    ||| event_type == "m.poll.end"@
    ||| event_type == "org.matrix.msc3381.poll.end"@
    ||| event_type == "m.room.encrypted"@
    ||| event_type == "m.room.message"@
    ||| event_type == "m.sticker"@
}

/// Whether an event is worth marking the room as unread for the user `user_id`: somebody else
/// sent it, and it is a message-like event of a notable type, neither redacted nor an edit.
pub open spec fn is_unread(event: DeserializedEventView, user_id: Seq<char>) -> bool {
    &&& event.sender != user_id
    &&& event.body matches EventBodyView::MessageLike { event_type, content }
    &&& content matches Some(content)
    &&& !content.is_replacement
    &&& !content.is_poll_replacement
    &&& !content.is_unstable_poll_replacement
    &&& is_notable_type(event_type)
}

/// Whether the event with the given JSON text is worth marking the room as unread for the user
/// `user_id`. A text that is not that of an event is not.
pub open spec fn is_unread_json(json: Seq<char>, user_id: Seq<char>) -> bool {
    deserialized_event(json) matches Some(event) && is_unread(event, user_id)
}

/// Are message-like events of type `event_type` worth marking a room as unread?
pub fn type_marks_as_unread(event_type: &str) -> (unread: bool)
    ensures
        unread == is_notable_type(event_type@),
{
    *event_type == *"org.matrix.msc1767.message" || *event_type == *"m.poll.start" || *event_type
        == *"org.matrix.msc3381.poll.start" || *event_type == *"m.poll.end" || *event_type
        == *"org.matrix.msc3381.poll.end" || *event_type == *"m.room.encrypted" || *event_type
        == *"m.room.message" || *event_type == *"m.sticker"
}

/// Is the deserialized event worth marking a room as unread?
pub fn event_marks_as_unread(event: &DeserializedEvent, user_id: &str) -> (unread: bool)
    ensures
        unread == is_unread(event@, user_id@),
        event.sender@ == user_id@ ==> !unread,
        match event.body {
            EventBody::State => !unread,
            EventBody::MessageLike { content: None, .. } => !unread,
            EventBody::MessageLike { event_type, content: Some(content) } => event.sender@
                != user_id@ ==> unread == (is_notable_type(event_type@) && !content.is_replacement
                && !content.is_poll_replacement && !content.is_unstable_poll_replacement),
        },
{
    if *event.sender.as_str() == *user_id {
        // Not interested in one's own events.
        return false;
    }
    match &event.body {
        EventBody::State => false,
        // Filter out redactions.
        EventBody::MessageLike { content: None, .. } => false,
        EventBody::MessageLike { event_type, content: Some(content) } => {
            // Filter out edits.
            !content.is_replacement && !content.is_poll_replacement
                && !content.is_unstable_poll_replacement && type_marks_as_unread(
                event_type.as_str(),
            )
        },
    }
}

/// Is the event with the given JSON text worth marking a room as unread?
pub fn marks_as_unread(event: &str, user_id: &str) -> (unread: bool)
    ensures
        unread == is_unread_json(event@, user_id@),
{
    match deserialize_event(event) {
        Some(event) => event_marks_as_unread(&event, user_id),
        None => false,
    }
}

} // verus!
