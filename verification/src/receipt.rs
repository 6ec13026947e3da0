//! The receipts that a sync brings for a room.
use vstd::hash_map::StringHashMap;
use vstd::prelude::*;

use crate::text::comes_before;

#[allow(unused_imports)]
use crate::text::{
    is_increasing, lemma_increasing_no_duplicates, lemma_insert_increasing, lemma_precedes_total,
    precedes,
};

verus! {

/// The types of receipts.
#[derive(Clone, Copy, Debug, PartialEq, Eq, Structural)]
pub enum ReceiptType {
    /// A public read receipt.
    Read,
    /// A private read receipt.
    ReadPrivate,
    /// A receipt of any other type.
    Custom,
}

/// The thread that a receipt applies to.
#[derive(Clone, Debug)]
pub enum ReceiptThread {
    /// The receipt applies to the timeline, regardless of threads.
    Unthreaded,
    /// The receipt applies to the main timeline.
    Main,
    /// The receipt applies to the thread with the given root event.
    Thread(String),
    /// A thread that is not known.
    Custom(String),
}

impl ReceiptThread {
    /// Whether the receipt applies to the room's timeline, and not to a thread.
    pub open spec fn applies_to_timeline(self) -> bool {
        self is Unthreaded || self is Main
    }
}

/// The receipts that an event has got.
pub struct EventReceipts {
    /// The id of the event.
    pub event_id: String,
    /// The public read receipts: for each user, the thread that the receipt applies to.
    pub read: StringHashMap<ReceiptThread>,
    /// The private read receipts: for each user, the thread that the receipt applies to.
    pub read_private: StringHashMap<ReceiptThread>,
    /// The receipts of all other types: for each user, the thread that the receipt applies to.
    pub custom: StringHashMap<ReceiptThread>,
}

/// The mathematical value of [`EventReceipts`], apart from the id of the event.
#[verifier::ext_equal]
pub struct EventReceiptsView {
    pub read: Map<Seq<char>, ReceiptThread>,
    pub read_private: Map<Seq<char>, ReceiptThread>,
    pub custom: Map<Seq<char>, ReceiptThread>,
}

impl View for EventReceipts {
    type V = EventReceiptsView;

    open spec fn view(&self) -> EventReceiptsView {
        EventReceiptsView {
            read: self.read@,
            read_private: self.read_private@,
            custom: self.custom@,
        }
    }
}

impl EventReceiptsView {
    /// No receipts.
    pub open spec fn empty() -> EventReceiptsView {
        EventReceiptsView { read: Map::empty(), read_private: Map::empty(), custom: Map::empty() }
    }

    /// The receipts of a type.
    pub open spec fn of_type(self, receipt_type: ReceiptType) -> Map<Seq<char>, ReceiptThread> {
        match receipt_type {
            ReceiptType::Read => self.read,
            ReceiptType::ReadPrivate => self.read_private,
            ReceiptType::Custom => self.custom,
        }
    }

    /// Whether the user has a receipt of the given type that applies to the timeline.
    pub open spec fn read_by(self, receipt_type: ReceiptType, user_id: Seq<char>) -> bool {
        let receipts = self.of_type(receipt_type);
        receipts.contains_key(user_id) && receipts[user_id].applies_to_timeline()
    }

    /// The receipts with one more of a type, in place of the user's earlier one of that type.
    pub open spec fn with(
        self,
        receipt_type: ReceiptType,
        user_id: Seq<char>,
        thread: ReceiptThread,
    ) -> EventReceiptsView {
        match receipt_type {
            ReceiptType::Read => EventReceiptsView {
                read: self.read.insert(user_id, thread),
                ..self
            },
            ReceiptType::ReadPrivate => EventReceiptsView {
                read_private: self.read_private.insert(user_id, thread),
                ..self
            },
            ReceiptType::Custom => EventReceiptsView {
                custom: self.custom.insert(user_id, thread),
                ..self
            },
        }
    }
}

impl EventReceipts {
    /// No receipts for the event with the given id.
    pub fn new(event_id: String) -> (receipts: Self)
        ensures
            receipts.event_id == event_id,
            receipts@ == EventReceiptsView::empty(),
    {
        EventReceipts {
            event_id,
            read: StringHashMap::new(),
            read_private: StringHashMap::new(),
            custom: StringHashMap::new(),
        }
    }

    /// Adds a receipt, in place of the user's earlier one of that type.
    pub fn insert(&mut self, receipt_type: ReceiptType, user_id: String, thread: ReceiptThread)
        ensures
            final(self).event_id == old(self).event_id,
            final(self)@ == old(self)@.with(receipt_type, user_id@, thread),
    {
        match receipt_type {
            ReceiptType::Read => self.read.insert(user_id, thread),
            ReceiptType::ReadPrivate => self.read_private.insert(user_id, thread),
            ReceiptType::Custom => self.custom.insert(user_id, thread),
        }
    }

    /// Whether the user has a receipt of the given type that applies to the timeline.
    pub fn is_read_by(&self, receipt_type: ReceiptType, user_id: &str) -> (read: bool)
        ensures
            read == self@.read_by(receipt_type, user_id@),
            read <==> ({
                let receipts = match receipt_type {
                    ReceiptType::Read => self.read@,
                    ReceiptType::ReadPrivate => self.read_private@,
                    ReceiptType::Custom => self.custom@,
                };
                receipts.contains_key(user_id@) && (receipts[user_id@] == ReceiptThread::Main
                    || receipts[user_id@] == ReceiptThread::Unthreaded)
            }),
    {
        let receipts = match receipt_type {
            ReceiptType::Read => &self.read,
            ReceiptType::ReadPrivate => &self.read_private,
            ReceiptType::Custom => &self.custom,
        };
        match receipts.get(user_id) {
            Some(thread) => matches!(thread, ReceiptThread::Main | ReceiptThread::Unthreaded),
            None => false,
        }
    }
}

/// The content of a receipt event: a mapping of events to their receipts, in ascending order of
/// the events' ids.
pub struct ReceiptEventContent {
    events: Vec<EventReceipts>,
}

/// The entries of a list, as a mapping of the events' ids to their receipts.
pub closed spec fn entries(events: Seq<EventReceipts>) -> Map<Seq<char>, EventReceiptsView> {
    Map::new(
        |id: Seq<char>| exists|pos: int| is_entry(events, id, pos),
        |id: Seq<char>| events[choose|pos: int| is_entry(events, id, pos)]@,
    )
}

spec fn is_entry(events: Seq<EventReceipts>, id: Seq<char>, pos: int) -> bool {
    0 <= pos < events.len() && events[pos].event_id@ == id
}

/// The ids of the events in a list.
spec fn entry_ids(events: Seq<EventReceipts>) -> Seq<Seq<char>> {
    events.map_values(|receipts: EventReceipts| receipts.event_id@)
}

impl View for ReceiptEventContent {
    type V = Map<Seq<char>, EventReceiptsView>;

    closed spec fn view(&self) -> Map<Seq<char>, EventReceiptsView> {
        entries(self.events@)
    }
}

/// The content of a receipt event with one more receipt, in place of the user's earlier one of
/// that type for that event.
pub open spec fn with_receipt(
    content: Map<Seq<char>, EventReceiptsView>,
    event_id: Seq<char>,
    receipt_type: ReceiptType,
    user_id: Seq<char>,
    thread: ReceiptThread,
) -> Map<Seq<char>, EventReceiptsView> {
    let receipts = if content.contains_key(event_id) {
        content[event_id]
    } else {
        EventReceiptsView::empty()
    };
    content.insert(event_id, receipts.with(receipt_type, user_id, thread))
}

impl ReceiptEventContent {
    /// The ids of the events, in ascending order.
    pub closed spec fn in_order(&self) -> Seq<Seq<char>> {
        entry_ids(self.events@)
    }

    /// The events are in ascending order of their ids; so none occurs twice.
    #[verifier::type_invariant]
    spec fn is_ordered(self) -> bool {
        is_increasing(entry_ids(self.events@))
    }

    /// No receipts.
    pub fn new() -> (content: Self)
        ensures
            content@ == Map::<Seq<char>, EventReceiptsView>::empty(),
    {
        let content = ReceiptEventContent { events: Vec::new() };
        assert(content@ =~= Map::empty());
        content
    }

    /// The receipts of each event, in ascending order of the events' ids.
    pub fn events(&self) -> (events: &Vec<EventReceipts>)
        ensures
            events@.len() == self.in_order().len(),
            forall|i: int|
                0 <= i < events@.len() ==> {
                    &&& (#[trigger] events@[i]).event_id@ == self.in_order()[i]
                    &&& self@.contains_key(events@[i].event_id@)
                    &&& self@[events@[i].event_id@] == events@[i]@
                },
            is_increasing(self.in_order()),
            self@.dom() == self.in_order().to_set(),
    {
        proof {
            use_type_invariant(self);
            let events = self.events@;
            assert forall|i: int| 0 <= i < events.len() implies {
                &&& self@.contains_key(events[i].event_id@)
                &&& self@[events[i].event_id@] == (#[trigger] events[i])@
            } by {
                assert(is_entry(events, events[i].event_id@, i));
                lemma_entry_unique(events, events[i].event_id@, i);
            }
            assert forall|id: Seq<char>| self@.dom().contains(id)
                == self.in_order().to_set().contains(id) by {
                if self@.dom().contains(id) {
                    let pos = choose|pos: int| is_entry(events, id, pos);
                    assert(self.in_order()[pos] == id);
                }
                if self.in_order().contains(id) {
                    let pos = choose|pos: int|
                        0 <= pos < self.in_order().len() && self.in_order()[pos] == id;
                    assert(is_entry(events, id, pos));
                }
            }
            assert(self@.dom() =~= self.in_order().to_set());
        }
        &self.events
    }

    /// Adds the receipt of a user for an event, in place of the user's earlier one of that type
    /// for that event.
    pub fn insert(
        &mut self,
        event_id: String,
        receipt_type: ReceiptType,
        user_id: String,
        thread: ReceiptThread,
    )
        ensures
            final(self)@ == with_receipt(old(self)@, event_id@, receipt_type, user_id@, thread),
    {
        proof {
            use_type_invariant(&*self);
        }
        let ghost before = self.events@;
        let ghost ids = entry_ids(before);
        let mut events: Vec<EventReceipts> = Vec::new();
        std::mem::swap(&mut events, &mut self.events);
        let mut i: usize = 0;
        while i < events.len() && comes_before(events[i].event_id.as_str(), event_id.as_str())
            invariant
                i <= events@.len(),
                before == events@,
                ids == entry_ids(before),
                forall|j: int| 0 <= j < i ==> precedes(#[trigger] ids[j], event_id@),
            decreases events@.len() - i,
        {
            assert(ids[i as int] == events@[i as int].event_id@);
            i += 1;
        }
        if i < events.len() && *events[i].event_id.as_str() == *event_id.as_str() {
            proof {
                assert(is_entry(before, event_id@, i as int));
                lemma_entry_unique(before, event_id@, i as int);
            }
            events[i].insert(receipt_type, user_id, thread);
            proof {
                assert(entry_ids(events@) =~= ids);
                assert forall|id: Seq<char>, pos: int| is_entry(events@, id, pos) == is_entry(
                    before,
                    id,
                    pos,
                ) by {}
                lemma_entries_update(before, events@, i as int);
                assert(entries(events@) =~= with_receipt(
                    entries(before),
                    event_id@,
                    receipt_type,
                    user_id@,
                    thread,
                ));
            }
        } else {
            proof {
                if i < ids.len() {
                    assert(ids[i as int] == before[i as int].event_id@);
                    lemma_precedes_total(event_id@, ids[i as int]);
                }
                lemma_insert_increasing(ids, i as int, event_id@);
            }
            let mut receipts = EventReceipts::new(event_id);
            receipts.insert(receipt_type, user_id, thread);
            events.insert(i, receipts);
            proof {
                assert(entry_ids(events@) =~= ids.insert(i as int, event_id@));
                lemma_entries_insert(before, i as int, receipts);
                assert(entries(events@) =~= with_receipt(
                    entries(before),
                    event_id@,
                    receipt_type,
                    user_id@,
                    thread,
                ));
            }
        }
        self.events = events;
    }
}

/// In a list in ascending order an event occurs at most once.
proof fn lemma_entry_unique(events: Seq<EventReceipts>, id: Seq<char>, pos: int)
    requires
        is_increasing(entry_ids(events)),
        is_entry(events, id, pos),
    ensures
        entries(events).contains_key(id),
        entries(events)[id] == events[pos]@,
        forall|other: int| is_entry(events, id, other) ==> other == pos,
{
    let ids = entry_ids(events);
    lemma_increasing_no_duplicates(ids);
    assert forall|other: int| is_entry(events, id, other) implies other == pos by {
        assert(ids[other] == ids[pos]);
    }
}

/// Changing the receipts of an event.
proof fn lemma_entries_update(before: Seq<EventReceipts>, after: Seq<EventReceipts>, pos: int)
    requires
        is_increasing(entry_ids(before)),
        0 <= pos < before.len(),
        after.len() == before.len(),
        forall|i: int|
            0 <= i < before.len() ==> (#[trigger] after[i]).event_id@ == before[i].event_id@,
        forall|i: int| 0 <= i < before.len() && i != pos ==> #[trigger] after[i] == before[i],
    ensures
        entries(after) == entries(before).insert(before[pos].event_id@, after[pos]@),
{
    assert(entry_ids(after) =~= entry_ids(before));
    let right = entries(before).insert(before[pos].event_id@, after[pos]@);
    assert forall|id: Seq<char>| entries(after).contains_key(id) == right.contains_key(id) by {
        if entries(after).contains_key(id) {
            let at = choose|at: int| is_entry(after, id, at);
            assert(is_entry(before, id, at));
        }
        if entries(before).contains_key(id) {
            let at = choose|at: int| is_entry(before, id, at);
            assert(is_entry(after, id, at));
        }
        if id == before[pos].event_id@ {
            assert(is_entry(after, id, pos));
        }
    }
    assert forall|id: Seq<char>| entries(after).contains_key(id) implies entries(after)[id]
        == right[id] by {
        let at = choose|at: int| is_entry(after, id, at);
        assert(is_entry(before, id, at));
        lemma_entry_unique(after, id, at);
        lemma_entry_unique(before, id, at);
        if id == before[pos].event_id@ {
            assert(is_entry(before, id, pos));
        }
    }
    assert(entries(after) =~= right);
}

/// Adding an event with its receipts.
proof fn lemma_entries_insert(before: Seq<EventReceipts>, pos: int, receipts: EventReceipts)
    requires
        is_increasing(entry_ids(before)),
        is_increasing(entry_ids(before.insert(pos, receipts))),
        0 <= pos <= before.len(),
        !entry_ids(before).contains(receipts.event_id@),
    ensures
        !entries(before).contains_key(receipts.event_id@),
        entries(before.insert(pos, receipts)) == entries(before).insert(
            receipts.event_id@,
            receipts@,
        ),
{
    let after = before.insert(pos, receipts);
    let right = entries(before).insert(receipts.event_id@, receipts@);
    if entries(before).contains_key(receipts.event_id@) {
        let at = choose|at: int| is_entry(before, receipts.event_id@, at);
        assert(entry_ids(before)[at] == receipts.event_id@);
    }
    assert forall|id: Seq<char>| #[trigger] entries(before).contains_key(id) implies {
        &&& entries(after).contains_key(id)
        &&& entries(after)[id] == entries(before)[id]
    } by {
        let at = choose|at: int| is_entry(before, id, at);
        let shifted = if at < pos {
            at
        } else {
            at + 1
        };
        assert(is_entry(after, id, shifted));
        lemma_entry_unique(before, id, at);
        lemma_entry_unique(after, id, shifted);
    }
    assert(is_entry(after, receipts.event_id@, pos));
    lemma_entry_unique(after, receipts.event_id@, pos);
    assert(after[pos] == receipts);
    assert forall|id: Seq<char>| #[trigger] entries(after).contains_key(id) == right.contains_key(
        id,
    ) by {
        if entries(after).contains_key(id) {
            let at = choose|at: int| is_entry(after, id, at);
            if at < pos {
                assert(is_entry(before, id, at));
            } else if at > pos {
                assert(is_entry(before, id, at - 1));
            }
        }
        assert(entries(before).contains_key(id) ==> entries(after).contains_key(id));
    }
    assert forall|id: Seq<char>| #[trigger] entries(after).contains_key(id) implies entries(
        after,
    )[id] == right[id] by {
        if id != receipts.event_id@ {
            assert(entries(before).contains_key(id));
        }
    }
    assert(entries(after) =~= right);
}

/// Whether the user has read the event with the given id: has a read receipt for it, public or
/// private, that applies to the timeline.
pub open spec fn has_read(
    content: Map<Seq<char>, EventReceiptsView>,
    event_id: Seq<char>,
    user_id: Seq<char>,
) -> bool {
    content.contains_key(event_id) && (content[event_id].read_by(ReceiptType::Read, user_id)
        || content[event_id].read_by(ReceiptType::ReadPrivate, user_id))
}

/// The events that the user has read.
pub open spec fn events_read_by(
    content: Map<Seq<char>, EventReceiptsView>,
    user_id: Seq<char>,
) -> Set<Seq<char>> {
    Set::new(|event_id: Seq<char>| has_read(content, event_id, user_id))
}

} // verus!
