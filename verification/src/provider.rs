//! Where the events of earlier syncs come from.
use eyeball_im::Vector;
use vstd::prelude::*;

use crate::timeline::{SyncTimelineEvent, SyncTimelineEventView};

verus! {

/// The persistent vector of `eyeball_im`.
#[verifier::external_type_specification]
#[verifier::external_body]
#[verifier::reject_recursive_types(A)]
pub struct ExVector<A>(Vector<A>);

/// The events that a vector holds, in order.
pub uninterp spec fn vector_contents(vector: Vector<SyncTimelineEvent>) -> Seq<
    SyncTimelineEventView,
>;

/// `Vector::new`: the new vector holds no event.
#[verifier::external_body]
fn vector_new() -> (vector: Vector<SyncTimelineEvent>)
    ensures
        vector_contents(vector) == Seq::<SyncTimelineEventView>::empty(),
{
    Vector::new()
}

/// `Vector::extend`: the given events are added at the end, in their order. Events that the
/// vector shares with another one may be replaced by their clones, which have the same value.
#[verifier::external_body]
pub(crate) fn vector_extend(vector: &mut Vector<SyncTimelineEvent>, events: Vec<SyncTimelineEvent>)
    ensures
        vector_contents(*final(vector)) == vector_contents(*old(vector)) + events@.map_values(
            |event: SyncTimelineEvent| event@,
        ),
{
    vector.extend(events)
}

/// `Vector::iter`: hands out the events that the vector holds, in order.
#[verifier::external_body]
pub(crate) fn vector_iter(vector: &Vector<SyncTimelineEvent>) -> (events: Vec<&SyncTimelineEvent>)
    ensures
        events@.map_values(|event: &SyncTimelineEvent| event@) == vector_contents(*vector),
{
    vector.iter().collect()
}

/// Provider for timeline events prior to the current sync.
pub trait PreviousEventsProvider: Send + Sync {
    /// Returns the list of known timeline events, in sync order, for the given room.
    fn for_room(&self, room_id: &str) -> (events: Vector<SyncTimelineEvent>);
}

/// Knows of no earlier events.
impl PreviousEventsProvider for () {
    fn for_room(&self, room_id: &str) -> (events: Vector<SyncTimelineEvent>)
        ensures
            vector_contents(events) == Seq::<SyncTimelineEventView>::empty(),
    {
        vector_new()
    }
}

} // verus!
