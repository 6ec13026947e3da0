//! Timeline events, as the sync response brings them and as the computation reads them.
use ruma::events::AnySyncTimelineEvent;
use ruma::serde::Raw;
use ruma::OwnedEventId;
use vstd::prelude::*;

use crate::unread::{event_marks_as_unread, marks_as_unread, DeserializedEvent};

#[allow(unused_imports)]
use crate::unread::{is_unread, is_unread_json};

verus! {

/// An action that the user's push rules attach to an event.
#[derive(Clone, Copy, Debug, PartialEq, Eq, Structural)]
pub enum Action {
    /// The event generates a notification.
    Notify,
    /// A tweak is set.
    SetTweak(Tweak),
    /// An action that is not known.
    Custom,
}

/// A tweak that an [`Action`] sets.
#[derive(Clone, Copy, Debug, PartialEq, Eq, Structural)]
pub enum Tweak {
    /// A sound is played.
    Sound,
    /// Whether the event is highlighted.
    Highlight(bool),
    /// A tweak that is not known.
    Custom,
}

impl Action {
    /// Whether this action should trigger a notification.
    pub fn should_notify(&self) -> (notify: bool)
        ensures
            notify == (*self == Action::Notify),
    {
        matches!(self, Action::Notify)
    }

    /// Whether this action highlights the event.
    pub fn is_highlight(&self) -> (highlight: bool)
        ensures
            highlight == (*self == Action::SetTweak(Tweak::Highlight(true))),
    {
        matches!(self, Action::SetTweak(Tweak::Highlight(true)))
    }
}

/// What the computation asks of a timeline event.
pub trait TimelineEvent {
    /// The event's id, where it has a valid one.
    spec fn id(&self) -> Option<Seq<char>>;

    /// Whether the event is worth marking the room as unread for a user.
    spec fn unread_for(&self, user_id: Seq<char>) -> bool;

    /// The actions that the user's push rules attach to the event.
    spec fn actions(&self) -> Seq<Action>;

    /// The event's id, where it has a valid one.
    fn event_id(&self) -> (id: Option<String>)
        ensures
            id.deep_view() == self.id(),
    ;

    /// Is the event worth marking the room as unread for the user `user_id`?
    fn marks_as_unread(&self, user_id: &str) -> (unread: bool)
        ensures
            unread == self.unread_for(user_id@),
    ;

    /// The actions that the user's push rules attach to the event.
    fn push_actions(&self) -> (actions: &Vec<Action>)
        ensures
            actions@ == self.actions(),
    ;
}

/// A timeline event as the sync response brings it.
#[derive(Debug)]
pub struct SyncTimelineEvent {
    /// The event's JSON text.
    pub event: String,
    /// The push actions that were computed for the event.
    pub push_actions: Vec<Action>,
}

/// The mathematical value of a [`SyncTimelineEvent`].
pub struct SyncTimelineEventView {
    pub event: Seq<char>,
    pub push_actions: Seq<Action>,
}

impl View for SyncTimelineEvent {
    type V = SyncTimelineEventView;

    open spec fn view(&self) -> SyncTimelineEventView {
        SyncTimelineEventView { event: self.event@, push_actions: self.push_actions@ }
    }
}

impl Clone for SyncTimelineEvent {
    fn clone(&self) -> (event: Self)
        ensures
            event@ == self@,
    {
        let push_actions: Vec<Action> = self.push_actions.clone();
        assert(push_actions@ =~= self.push_actions@);
        SyncTimelineEvent { event: self.event.clone(), push_actions }
    }
}

/// What `ruma` reads as the `event_id` field of the JSON text of an event: `None` where there is
/// no such field, or where it is not a valid event id.
pub uninterp spec fn event_id_field(json: Seq<char>) -> Option<Seq<char>>;

/// Reads the field `event_id` of the JSON text of an event with `Raw::get_field` of `ruma`.
///
/// Claimed of it: the outcome is a function of the text alone, `event_id_field`. Nothing is said
/// of which texts have a valid id.
#[verifier::external_body]
fn get_event_id_field(json: &str) -> (id: Option<String>)
    ensures
        id.deep_view() == event_id_field(json@),
{
    let raw: Raw<AnySyncTimelineEvent> = Raw::from_json_string(json.to_owned()).ok()?;
    raw.get_field::<OwnedEventId>("event_id").ok().flatten().map(|id| id.to_string())
}

impl SyncTimelineEvent {
    /// Creates an event from its JSON text, without push actions.
    pub fn new(event: String) -> (new: Self)
        ensures
            new@ == (SyncTimelineEventView { event: event@, push_actions: Seq::empty() }),
    {
        let new = SyncTimelineEvent { event, push_actions: Vec::new() };
        assert(new.push_actions@ =~= Seq::empty());
        new
    }
}

impl TimelineEvent for SyncTimelineEvent {
    open spec fn id(&self) -> Option<Seq<char>> {
        event_id_field(self@.event)
    }

    open spec fn unread_for(&self, user_id: Seq<char>) -> bool {
        is_unread_json(self@.event, user_id)
    }

    open spec fn actions(&self) -> Seq<Action> {
        self@.push_actions
    }

    fn event_id(&self) -> (id: Option<String>) {
        get_event_id_field(self.event.as_str())
    }

    fn marks_as_unread(&self, user_id: &str) -> (unread: bool) {
        marks_as_unread(self.event.as_str(), user_id)
    }

    fn push_actions(&self) -> (actions: &Vec<Action>) {
        &self.push_actions
    }
}

/// A timeline event whose JSON text has been read.
#[derive(Clone, Debug)]
pub struct DecodedEvent {
    /// The event's id, where it has a valid one.
    pub event_id: Option<String>,
    /// What the text deserialized to, or `None` where it is not that of an event.
    pub event: Option<DeserializedEvent>,
    /// The push actions that were computed for the event.
    pub push_actions: Vec<Action>,
}

impl TimelineEvent for DecodedEvent {
    open spec fn id(&self) -> Option<Seq<char>> {
        self.event_id.deep_view()
    }

    open spec fn unread_for(&self, user_id: Seq<char>) -> bool {
        self.event matches Some(event) && is_unread(event@, user_id)
    }

    open spec fn actions(&self) -> Seq<Action> {
        self.push_actions@
    }

    fn event_id(&self) -> (id: Option<String>) {
        self.event_id.clone()
    }

    fn marks_as_unread(&self, user_id: &str) -> (unread: bool) {
        match &self.event {
            Some(event) => event_marks_as_unread(event, user_id),
            None => false,
        }
    }

    fn push_actions(&self) -> (actions: &Vec<Action>) {
        &self.push_actions
    }
}

impl<E: TimelineEvent> TimelineEvent for &E {
    open spec fn id(&self) -> Option<Seq<char>> {
        (**self).id()
    }

    open spec fn unread_for(&self, user_id: Seq<char>) -> bool {
        (**self).unread_for(user_id)
    }

    open spec fn actions(&self) -> Seq<Action> {
        (**self).actions()
    }

    fn event_id(&self) -> (id: Option<String>) {
        (**self).event_id()
    }

    fn marks_as_unread(&self, user_id: &str) -> (unread: bool) {
        (**self).marks_as_unread(user_id)
    }

    fn push_actions(&self) -> (actions: &Vec<Action>) {
        (**self).push_actions()
    }
}

} // verus!
