//! The read receipts of a room, and the counts of its unread events.
use vstd::prelude::*;

use crate::event_id_set::EventIdSet;
use crate::timeline::TimelineEvent;

#[allow(unused_imports)]
use crate::model::{
    event_ids, facts, facts_of, first_position, ids, is_first, lemma_first_position,
    lemma_total_bound, lemma_total_empty, lemma_total_push, total, Counts, ReceiptsView,
};
#[allow(unused_imports)]
use crate::timeline::{Action, Tweak};

verus! {

/// The latest read receipt of the user.
#[derive(Clone, Debug)]
pub struct LatestReadReceipt {
    /// The id of the event the read receipt is referring to. (Not the read receipt event id.)
    pub event_id: String,
}

/// The event that a receipt refers to, if there is a receipt.
pub open spec fn receipt_target(receipt: Option<LatestReadReceipt>) -> Option<Seq<char>> {
    match receipt {
        Some(receipt) => Some(receipt.event_id@),
        None => None,
    }
}

/// Public data about read receipts collected during processing of a room.
#[derive(Clone, Debug)]
pub struct RoomReadReceipts {
    /// How many unread messages does the room have?
    pub num_unread: u64,
    /// How many unread events does the room have that should notify?
    pub num_notifications: u64,
    /// How many unread events does the room have that are highlighted for the user (aka
    /// mentions)?
    pub num_mentions: u64,
    /// The latest read receipt (main-threaded or unthreaded) known for the room.
    pub latest_active: Option<LatestReadReceipt>,
    /// Read receipts that haven't been matched to their event.
    ///
    /// This might mean that the read receipt is in the past further than we recall (i.e. before
    /// the first event we've ever cached), or in the future (i.e. the event is lagging behind
    /// because of federation).
    ///
    /// Note: this contains event ids of the event *targets* of the receipts, not the event ids
    /// of the receipt events themselves.
    pub pending: EventIdSet,
}

impl View for RoomReadReceipts {
    type V = ReceiptsView;

    open spec fn view(&self) -> ReceiptsView {
        ReceiptsView {
            counts: self.counts(),
            latest_active: receipt_target(self.latest_active),
            pending: self.pending@,
        }
    }
}

impl Default for RoomReadReceipts {
    /// Nothing is unread, and no receipt is known.
    fn default() -> (receipts: Self)
        ensures
            receipts@ == (ReceiptsView {
                counts: Counts { unread: 0, notifications: 0, mentions: 0 },
                latest_active: None,
                pending: Set::empty(),
            }),
            receipts.num_unread == 0,
            receipts.num_notifications == 0,
            receipts.num_mentions == 0,
            receipts.latest_active is None,
            receipts.pending@ == Set::<Seq<char>>::empty(),
    {
        RoomReadReceipts {
            num_unread: 0,
            num_notifications: 0,
            num_mentions: 0,
            latest_active: None,
            pending: EventIdSet::new(),
        }
    }
}

impl RoomReadReceipts {
    /// The counters.
    pub open spec fn counts(self) -> Counts {
        Counts {
            unread: self.num_unread as nat,
            notifications: self.num_notifications as nat,
            mentions: self.num_mentions as nat,
        }
    }

    /// Update the unread counts according to the new event.
    ///
    /// Returns whether the event triggered a new unread/notification/mention.
    pub fn account_event<E: TimelineEvent>(&mut self, event: &E, user_id: &str) -> (counted: bool)
        requires
            old(self).counts().plus(facts_of(*event, user_id@).tally()).fit(),
        ensures
            counted == facts_of(*event, user_id@).counts(),
            final(self)@ == (ReceiptsView {
                counts: old(self).counts().plus(facts_of(*event, user_id@).tally()),
                ..old(self)@
            }),
            final(self).num_unread == old(self).num_unread + (if event.unread_for(user_id@) {
                1int
            } else {
                0
            }),
            forall|i: int|
                0 <= i < event.actions().len() && #[trigger] event.actions()[i] == Action::Notify
                    ==> final(self).num_notifications == old(self).num_notifications + 1,
            (forall|i: int|
                0 <= i < event.actions().len() ==> #[trigger] event.actions()[i] != Action::Notify)
                ==> final(self).num_notifications == old(self).num_notifications,
            forall|i: int|
                0 <= i < event.actions().len() && #[trigger] event.actions()[i]
                    == Action::SetTweak(Tweak::Highlight(true)) ==> final(self).num_mentions
                    == old(self).num_mentions + 1,
            (forall|i: int|
                0 <= i < event.actions().len() ==> #[trigger] event.actions()[i]
                    != Action::SetTweak(Tweak::Highlight(true))) ==> final(self).num_mentions
                == old(self).num_mentions,
            counted == (final(self).num_unread != old(self).num_unread
                || final(self).num_notifications != old(self).num_notifications
                || final(self).num_mentions != old(self).num_mentions),
            final(self).latest_active == old(self).latest_active,
            final(self).pending == old(self).pending,
    {
        let ghost event_facts = facts_of(*event, user_id@);
        let mut has_unread = false;
        if event.marks_as_unread(user_id) {
            self.num_unread += 1;
            has_unread = true;
        }
        let mut has_notify = false;
        let mut has_mention = false;
        let actions = event.push_actions();
        let mut i: usize = 0;
        while i < actions.len()
            invariant
                i <= actions@.len(),
                actions@ == event.actions(),
                event_facts == facts_of(*event, user_id@),
                has_unread == event_facts.unread,
                has_notify == actions@.take(i as int).contains(Action::Notify),
                has_mention == actions@.take(i as int).contains(
                    Action::SetTweak(Tweak::Highlight(true)),
                ),
                old(self).num_notifications + event_facts.tally().notifications <= u64::MAX,
                old(self).num_mentions + event_facts.tally().mentions <= u64::MAX,
                self.num_unread == old(self).num_unread + (if has_unread {
                    1int
                } else {
                    0
                }),
                self.num_notifications == old(self).num_notifications + (if has_notify {
                    1int
                } else {
                    0
                }),
                self.num_mentions == old(self).num_mentions + (if has_mention {
                    1int
                } else {
                    0
                }),
                self.latest_active == old(self).latest_active,
                self.pending == old(self).pending,
            decreases actions@.len() - i,
        {
            let action = actions[i];
            proof {
                let taken = actions@.take(i as int);
                assert(actions@.take(i + 1) =~= taken.push(action));
                assert(taken.push(action)[i as int] == action);
                assert forall|x: Action| taken.push(action).contains(x) == (taken.contains(x) || x
                    == action) by {
                    if taken.contains(x) {
                        let k = choose|k: int| 0 <= k < taken.len() && taken[k] == x;
                        assert(taken.push(action)[k] == x);
                    }
                }
                assert(actions@.contains(action));
            }
            if !has_notify && action.should_notify() {
                self.num_notifications += 1;
                has_notify = true;
            }
            if !has_mention && action.is_highlight() {
                self.num_mentions += 1;
                has_mention = true;
            }
            i += 1;
        }
        assert(actions@.take(i as int) =~= actions@);
        has_unread || has_notify || has_mention
    }

    /// Set the counters to zero.
    pub fn reset(&mut self)
        ensures
            final(self)@ == (ReceiptsView {
                counts: Counts { unread: 0, notifications: 0, mentions: 0 },
                ..old(self)@
            }),
            final(self).num_unread == 0,
            final(self).num_notifications == 0,
            final(self).num_mentions == 0,
            final(self).latest_active == old(self).latest_active,
            final(self).pending == old(self).pending,
    {
        self.num_unread = 0;
        self.num_notifications = 0;
        self.num_mentions = 0;
    }

    /// Try to find the event to which the receipt attaches to, and if found, will update the
    /// notification count in the room: what counts then is what comes after the first event with
    /// that id.
    ///
    /// Returns whether the event was found.
    pub fn find_and_account_events<E: TimelineEvent>(
        &mut self,
        receipt_event_id: &str,
        user_id: &str,
        events: &[E],
    ) -> (found: bool)
        ensures
            found == event_ids(events@).contains(Some(receipt_event_id@)),
            final(self)@ == if found {
                ReceiptsView {
                    counts: total(
                        facts(events@, user_id@).skip(
                            first_position(event_ids(events@), receipt_event_id@) + 1,
                        ),
                    ),
                    ..old(self)@
                }
            } else {
                old(self)@
            },
    {
        let ghost id = receipt_event_id@;
        let ghost all = facts(events@, user_id@);
        let ghost all_ids = event_ids(events@);
        let mut counting_receipts = false;
        let ghost mut first: int = 0;
        let mut i: usize = 0;
        while i < events.len()
            invariant
                i <= events@.len(),
                id == receipt_event_id@,
                all == facts(events@, user_id@),
                all_ids == event_ids(events@),
                self@.latest_active == old(self)@.latest_active,
                self@.pending == old(self)@.pending,
                !counting_receipts ==> {
                    &&& self@ == old(self)@
                    &&& forall|j: int| 0 <= j < i ==> all_ids[j] != Some(id)
                },
                counting_receipts ==> {
                    &&& first < i
                    &&& is_first(all_ids, id, first)
                    &&& self@.counts == total(all.subrange(first + 1, i as int))
                },
            decreases events@.len() - i,
        {
            let event = &events[i];
            assert(all_ids[i as int] == event.id());
            assert(all[i as int] == facts_of(*event, user_id@));
            if counting_receipts {
                proof {
                    let counted = all.subrange(first + 1, i as int);
                    assert(all.subrange(first + 1, i + 1) =~= counted.push(all[i as int]));
                    lemma_total_push(counted, all[i as int]);
                    lemma_total_bound(all.subrange(first + 1, i + 1));
                }
                self.account_event(event, user_id);
            } else if let Some(event_id) = event.event_id() {
                if *event_id.as_str() == *receipt_event_id {
                    // Switch over to the counting state, after resetting the previous counts.
                    self.reset();
                    counting_receipts = true;
                    proof {
                        first = i as int;
                        assert(all.subrange(first + 1, i + 1) =~= Seq::empty());
                        lemma_total_empty();
                    }
                }
            }
            i += 1;
        }
        proof {
            if counting_receipts {
                assert(all_ids.contains(Some(id)));
                lemma_first_position(all_ids, id);
                assert(all.subrange(first + 1, i as int) =~= all.skip(first + 1));
            }
        }
        counting_receipts
    }
}

} // verus!
