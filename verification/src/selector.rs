//! Selection of the receipt that comes last in sync order.
use vstd::hash_map::StringHashMap;
use vstd::prelude::*;

use crate::event_id_set::EventIdSet;
use crate::receipt::{ReceiptEventContent, ReceiptType};
use crate::room::LatestReadReceipt;
use crate::timeline::TimelineEvent;

#[allow(unused_imports)]
use crate::model::{
    beats, best, event_ids, is_best, is_injective, is_last, lemma_best_exists, lemma_best_unique,
    lemma_is_sync_index, lemma_sync_index, position, sync_index,
};
#[allow(unused_imports)]
use crate::receipt::{events_read_by, has_read, EventReceiptsView};
#[allow(unused_imports)]
use crate::text::is_increasing;

verus! {

/// Small helper to select the "best" receipt (that with the biggest sync order).
pub struct ReceiptSelector {
    /// Mapping of known event IDs to their sync order.
    event_id_to_pos: StringHashMap<usize>,
    /// The event with the biggest sync order, for which we had a user receipt, so far.
    best_receipt: Option<String>,
    /// The biggest sync order attached to the `best_receipt`.
    best_pos: Option<usize>,
}

/// The mathematical value of a [`ReceiptSelector`].
pub struct SelectorView {
    /// The sync order of the known events.
    pub index: Map<Seq<char>, int>,
    /// The event of the best receipt that was selected so far.
    pub best_receipt: Option<Seq<char>>,
    /// The position that a receipt has to beat.
    pub best_pos: Option<int>,
}

/// A map of positions, taken as integers.
pub open spec fn positions(index: Map<Seq<char>, usize>) -> Map<Seq<char>, int> {
    index.map_values(|pos: usize| pos as int)
}

impl SelectorView {
    /// After a receipt for the event `id` at position `pos` has been considered: it is selected
    /// if it comes later than the best one so far.
    pub open spec fn select(self, id: Seq<char>, pos: int) -> SelectorView {
        if beats(pos, self.best_pos) {
            SelectorView { best_receipt: Some(id), best_pos: Some(pos), ..self }
        } else {
            self
        }
    }

    /// After receipts for all of `candidates` have been considered: the best of them is selected
    /// if it comes later than the best one so far.
    pub open spec fn consider(self, candidates: Set<Seq<char>>) -> SelectorView {
        match best(self.index, candidates, self.best_pos) {
            Some(id) => SelectorView {
                best_receipt: Some(id),
                best_pos: Some(self.index[id]),
                ..self
            },
            None => self,
        }
    }

    /// What holds of every selector: no two events have the same position, positions are
    /// bounded, and a selected receipt has a position.
    pub open spec fn well_formed(self) -> bool {
        &&& is_injective(self.index)
        &&& is_bounded(self.index)
        &&& self.best_receipt is Some ==> self.best_pos is Some
    }
}

/// No position exceeds the largest index of a list.
pub open spec fn is_bounded(index: Map<Seq<char>, int>) -> bool {
    forall|id: Seq<char>| #[trigger] index.contains_key(id) ==> index[id] <= usize::MAX
}

/// The event `id`, once for each type of read receipt that the user has for it and that applies
/// to the timeline.
pub open spec fn receipts_for(
    content: Map<Seq<char>, EventReceiptsView>,
    id: Seq<char>,
    user_id: Seq<char>,
) -> Seq<Seq<char>> {
    (if content[id].read_by(ReceiptType::Read, user_id) {
        seq![id]
    } else {
        Seq::empty()
    }) + (if content[id].read_by(ReceiptType::ReadPrivate, user_id) {
        seq![id]
    } else {
        Seq::empty()
    })
}

/// The events of the user's receipts for `events` that are not among the known ones, event by
/// event.
pub open spec fn unmatched(
    content: Map<Seq<char>, EventReceiptsView>,
    events: Seq<Seq<char>>,
    user_id: Seq<char>,
    known: Set<Seq<char>>,
) -> Seq<Seq<char>>
    decreases events.len(),
{
    if events.len() == 0 {
        Seq::empty()
    } else {
        let id = events.last();
        unmatched(content, events.drop_last(), user_id, known) + if known.contains(id) {
            Seq::empty()
        } else {
            receipts_for(content, id, user_id)
        }
    }
}

/// Those of `events` that the user has read.
spec fn read_among(
    content: Map<Seq<char>, EventReceiptsView>,
    events: Seq<Seq<char>>,
    user_id: Seq<char>,
) -> Set<Seq<char>> {
    Set::new(|id: Seq<char>| events.contains(id) && has_read(content, id, user_id))
}

impl View for ReceiptSelector {
    type V = SelectorView;

    closed spec fn view(&self) -> SelectorView {
        SelectorView {
            index: positions(self.event_id_to_pos@),
            best_receipt: self.best_receipt.deep_view(),
            best_pos: match self.best_pos {
                Some(pos) => Some(pos as int),
                None => None,
            },
        }
    }
}

impl ReceiptSelector {
    #[verifier::type_invariant]
    spec fn is_well_formed(self) -> bool {
        self@.well_formed()
    }

    /// Creates a selector over the known events. A receipt has to be for a later event than the
    /// latest active one, where that is known.
    pub fn new<E: TimelineEvent>(all_events: &[E], latest_active_receipt_event: Option<&str>) -> (
    selector: Self)
        ensures
            selector@ == (SelectorView {
                index: sync_index(event_ids(all_events@)),
                best_receipt: None,
                best_pos: position(
                    sync_index(event_ids(all_events@)),
                    match latest_active_receipt_event {
                        Some(id) => Some(id@),
                        None => None,
                    },
                ),
            }),
            selector@.well_formed(),
    {
        let event_id_to_pos = Self::create_sync_index(all_events);
        let best_pos: Option<usize> = match latest_active_receipt_event {
            Some(event_id) => match event_id_to_pos.get(event_id) {
                Some(pos) => Some(*pos),
                None => None,
            },
            None => None,
        };
        proof {
            lemma_sync_index(event_ids(all_events@));
            assert(forall|id: Seq<char>| #[trigger]
                positions(event_id_to_pos@).contains_key(id) ==> positions(event_id_to_pos@)[id]
                    == event_id_to_pos@[id]);
        }
        ReceiptSelector { event_id_to_pos, best_receipt: None, best_pos }
    }

    /// Create a mapping of `event_id` -> sync order for all events that have an `event_id`.
    pub fn create_sync_index<E: TimelineEvent>(events: &[E]) -> (index: StringHashMap<usize>)
        ensures
            positions(index@) == sync_index(event_ids(events@)),
            forall|id: Seq<char>| #[trigger]
                index@.contains_key(id) <==> exists|i: int|
                    0 <= i < events@.len() && (#[trigger] events@[i]).id() == Some(id),
            forall|id: Seq<char>| #[trigger]
                index@.contains_key(id) ==> index@[id] < events@.len()
                    && events@[index@[id] as int].id() == Some(id),
            forall|id: Seq<char>, i: int|
                #![trigger index@.contains_key(id), events@[i]]
                index@.contains_key(id) && index@[id] < i < events@.len() ==> events@[i].id()
                    != Some(id),
    {
        let ghost ids = event_ids(events@);
        let mut index: StringHashMap<usize> = StringHashMap::new();
        let mut pos: usize = 0;
        while pos < events.len()
            invariant
                pos <= events@.len(),
                ids == event_ids(events@),
                forall|id: Seq<char>| #[trigger]
                    index@.contains_key(id) <==> ids.take(pos as int).contains(Some(id)),
                forall|id: Seq<char>|
                    index@.contains_key(id) ==> is_last(
                        ids.take(pos as int),
                        id,
                        #[trigger] index@[id] as int,
                    ),
            decreases events@.len() - pos,
        {
            let ghost seen = ids.take(pos as int);
            let ghost before = index@;
            let event_id = events[pos].event_id();
            proof {
                assert(ids.take(pos + 1) =~= seen.push(event_id.deep_view()));
            }
            if let Some(event_id) = event_id {
                index.insert(event_id, pos);
            }
            proof {
                assert forall|id: Seq<char>| #[trigger]
                    index@.contains_key(id) <==> ids.take(pos + 1).contains(Some(id)) by {
                    if seen.contains(Some(id)) {
                        let k = choose|k: int| 0 <= k < seen.len() && seen[k] == Some(id);
                        assert(ids.take(pos + 1)[k] == Some(id));
                    }
                    assert(ids.take(pos + 1)[pos as int] == event_id.deep_view());
                    assert(before.contains_key(id) <==> seen.contains(Some(id)));
                }
                assert forall|id: Seq<char>| index@.contains_key(id) implies is_last(
                    ids.take(pos + 1),
                    id,
                    #[trigger] index@[id] as int,
                ) by {
                    if event_id.deep_view() != Some(id) {
                        assert(before.contains_key(id));
                        assert(is_last(seen, id, before[id] as int));
                    }
                }
            }
            pos += 1;
        }
        proof {
            assert(ids.take(pos as int) =~= ids);
            let result = positions(index@);
            assert(forall|id: Seq<char>| #[trigger]
                result.contains_key(id) <==> index@.contains_key(id));
            lemma_is_sync_index(result, ids);
            assert forall|id: Seq<char>| #[trigger]
                index@.contains_key(id) <==> exists|i: int|
                    0 <= i < events@.len() && (#[trigger] events@[i]).id() == Some(id) by {
                if ids.contains(Some(id)) {
                    let i = choose|i: int| 0 <= i < ids.len() && ids[i] == Some(id);
                    assert(events@[i].id() == Some(id));
                }
                if exists|i: int|
                    0 <= i < events@.len() && (#[trigger] events@[i]).id() == Some(id) {
                    let i = choose|i: int|
                        0 <= i < events@.len() && (#[trigger] events@[i]).id() == Some(id);
                    assert(ids[i] == Some(id));
                }
            }
            assert forall|id: Seq<char>| #[trigger] index@.contains_key(id) implies index@[id]
                < events@.len() && events@[index@[id] as int].id() == Some(id) by {
                assert(is_last(ids, id, index@[id] as int));
            }
            assert forall|id: Seq<char>, i: int|
                #![trigger index@.contains_key(id), events@[i]]
                index@.contains_key(id) && index@[id] < i < events@.len() implies events@[i].id()
                != Some(id) by {
                assert(is_last(ids, id, index@[id] as int));
                assert(ids[i] == events@[i].id());
            }
        }
        index
    }

    /// Consider the current event and its position as a better read receipt.
    pub fn try_select_better(&mut self, event_id: &str, event_pos: usize)
        ensures
            final(self)@ == old(self)@.select(event_id@, event_pos as int),
    {
        proof {
            use_type_invariant(&*self);
        }
        if let Some(best_pos) = self.best_pos {
            // Note: by using a strict comparison here, we protect against the server sending a
            // receipt on the same event multiple times.
            if event_pos > best_pos {
                self.best_pos = Some(event_pos);
                self.best_receipt = Some(event_id.to_owned());
            }
        } else {
            // We didn't have a previous receipt, this is the first one we store: remember it.
            self.best_pos = Some(event_pos);
            self.best_receipt = Some(event_id.to_owned());
        }
    }

    /// Try to match pending receipts against new events: those whose event is known are
    /// considered and no longer pending.
    pub fn handle_pending_receipts(&mut self, pending: &mut EventIdSet)
        ensures
            final(self)@ == old(self)@.consider(old(pending)@),
            final(pending)@ == old(pending)@.difference(old(self)@.index.dom()),
    {
        proof {
            use_type_invariant(&*self);
        }
        let ghost start = self@;
        let ghost stash = pending@;
        let ghost known = start.index.dom();
        let ghost mut done: Set<Seq<char>> = Set::empty();
        let ghost mut rest: Seq<Seq<char>> = pending.in_order();
        proof {
            assert(pending.in_order().skip(0) =~= pending.in_order());
            lemma_consider_none(start, done);
        }
        let mut i: usize = 0;
        while i < pending.len()
            invariant
                i <= pending.in_order().len(),
                known == start.index.dom(),
                start.well_formed(),
                rest == pending.in_order().skip(i as int),
                self@.index == start.index,
                self@ == start.consider(done),
                forall|id: Seq<char>|
                    stash.contains(id) <==> (#[trigger] done.contains(id) || rest.contains(id)),
                forall|id: Seq<char>| #[trigger]
                    pending@.contains(id) <==> stash.contains(id) && !(done.contains(id)
                        && known.contains(id)),
            decreases pending.in_order().len() - i,
        {
            let event_id: String = pending.get(i).clone();
            let ghost id = event_id@;
            let ghost order = pending.in_order();
            proof {
                let next = order.skip(i + 1);
                assert(rest[0] == id);
                lemma_consider_insert(start, done, id);
                assert(stash.contains(id));
                assert forall|x: Seq<char>|
                    stash.contains(x) <==> (#[trigger] done.insert(id).contains(x)
                        || next.contains(x)) by {
                    assert(stash.contains(x) <==> (done.contains(x) || rest.contains(x)));
                    if next.contains(x) {
                        let k = choose|k: int| 0 <= k < next.len() && next[k] == x;
                        assert(rest[k + 1] == x);
                    }
                    if rest.contains(x) && x != id {
                        let k = choose|k: int| 0 <= k < rest.len() && rest[k] == x;
                        assert(next[k - 1] == x);
                    }
                }
                done = done.insert(id);
                rest = next;
            }
            if let Some(event_pos) = self.event_id_to_pos.get(event_id.as_str()) {
                // Maybe select this read receipt as it might be better than the ones we had.
                let event_pos: usize = *event_pos;
                assert(self@.index[id] == event_pos);
                self.try_select_better(event_id.as_str(), event_pos);
                // Remove this stashed read receipt from the pending list, as it's been
                // reconciled with its event.
                pending.remove_at(i);
            } else {
                // Keep it for further iterations.
                assert(!self@.index.contains_key(id));
                i += 1;
            }
            assert(pending.in_order().skip(i as int) =~= rest);
        }
        proof {
            assert(rest =~= Seq::empty());
            assert(done =~= stash);
            assert(pending@ =~= stash.difference(known));
        }
    }

    /// Considers a receipt for an event, or notes it as pending where the event is not known.
    fn handle_receipt(&mut self, event_id: &String, pending: &mut Vec<String>)
        ensures
            final(self)@ == old(self)@.consider(set![event_id@]),
            final(pending)@.map_values(|id: String| id@) == old(pending)@.map_values(
                |id: String| id@,
            ) + if old(self)@.index.contains_key(event_id@) {
                Seq::empty()
            } else {
                seq![event_id@]
            },
    {
        proof {
            use_type_invariant(&*self);
            lemma_consider_one(self@, event_id@);
        }
        if let Some(event_pos) = self.event_id_to_pos.get(event_id.as_str()) {
            let event_pos: usize = *event_pos;
            assert(self@.index[event_id@] == event_pos);
            self.try_select_better(event_id.as_str(), event_pos);
        } else {
            // It's a new pending receipt.
            assert(!self@.index.contains_key(event_id@));
            pending.push(event_id.clone());
        }
        assert(pending@.map_values(|id: String| id@) =~= old(pending)@.map_values(
            |id: String| id@,
        ) + if old(self)@.index.contains_key(event_id@) {
            Seq::empty()
        } else {
            seq![event_id@]
        });
    }

    /// Try to match new receipts against all (new and old) events.
    ///
    /// Returns all the new pending receipts (those for which we didn't have a known matching
    /// event), in ascending order of their event ids.
    pub fn handle_new_receipt(&mut self, user_id: &str, receipt_event: &ReceiptEventContent) -> (
    pending: Vec<String>)
        ensures
            final(self)@ == old(self)@.consider(events_read_by(receipt_event@, user_id@)),
            pending@.map_values(|id: String| id@) == unmatched(
                receipt_event@,
                receipt_event.in_order(),
                user_id@,
                old(self)@.index.dom(),
            ),
            is_increasing(receipt_event.in_order()),
            receipt_event.in_order().to_set() == receipt_event@.dom(),
    {
        proof {
            use_type_invariant(&*self);
        }
        let ghost start = self@;
        let ghost known = start.index.dom();
        let ghost content = receipt_event@;
        let ghost order = receipt_event.in_order();
        let mut pending: Vec<String> = Vec::new();
        let events = receipt_event.events();
        proof {
            assert(read_among(content, order.take(0), user_id@) =~= Set::empty());
            lemma_consider_none(start, Set::empty());
            assert(pending@.map_values(|id: String| id@) =~= Seq::empty());
        }
        // Now consider new receipts.
        let mut i: usize = 0;
        while i < events.len()
            invariant
                i <= events@.len(),
                events@.len() == order.len(),
                forall|j: int|
                    0 <= j < events@.len() ==> {
                        &&& (#[trigger] events@[j]).event_id@ == order[j]
                        &&& content.contains_key(events@[j].event_id@)
                        &&& content[events@[j].event_id@] == events@[j]@
                    },
                known == start.index.dom(),
                start.well_formed(),
                self@.index == start.index,
                self@ == start.consider(read_among(content, order.take(i as int), user_id@)),
                pending@.map_values(|id: String| id@) == unmatched(
                    content,
                    order.take(i as int),
                    user_id@,
                    known,
                ),
            decreases events@.len() - i,
        {
            let entry = &events[i];
            let ghost id = entry.event_id@;
            let ghost so_far = read_among(content, order.take(i as int), user_id@);
            let ghost read = entry@.read_by(ReceiptType::Read, user_id@);
            if entry.is_read_by(ReceiptType::Read, user_id) {
                self.handle_receipt(&entry.event_id, &mut pending);
                proof {
                    lemma_consider_union(start, so_far, set![id]);
                }
            }
            if entry.is_read_by(ReceiptType::ReadPrivate, user_id) {
                self.handle_receipt(&entry.event_id, &mut pending);
                proof {
                    if read {
                        lemma_consider_union(start, so_far.union(set![id]), set![id]);
                        assert(so_far.union(set![id]).union(set![id]) =~= so_far.union(set![id]));
                    } else {
                        lemma_consider_union(start, so_far, set![id]);
                    }
                }
            }
            proof {
                assert(order.take(i + 1) =~= order.take(i as int).push(id));
                lemma_read_among_push(content, order.take(i as int), id, user_id@);
                assert(order.take(i + 1).drop_last() =~= order.take(i as int));
                assert(pending@.map_values(|id: String| id@) =~= unmatched(
                    content,
                    order.take(i + 1),
                    user_id@,
                    known,
                ));
            }
            i += 1;
        }
        proof {
            assert(order.take(i as int) =~= order);
            assert forall|id: Seq<char>| content.contains_key(id) implies order.contains(id) by {
                assert(order.to_set().contains(id));
            }
            assert(read_among(content, order, user_id@) =~= events_read_by(content, user_id@));
        }
        pending
    }

    /// The receipt that was selected, if any.
    pub fn finish(self) -> (latest: Option<LatestReadReceipt>)
        ensures
            match latest {
                Some(receipt) => self@.best_receipt == Some(receipt.event_id@),
                None => self@.best_receipt is None,
            },
    {
        match self.best_receipt {
            Some(event_id) => Some(LatestReadReceipt { event_id }),
            None => None,
        }
    }
}

/// Where no candidate is selected, no known candidate comes later than the best one so far.
pub proof fn lemma_consider_unchanged(selector: SelectorView, candidates: Set<Seq<char>>)
    requires
        selector.well_formed(),
        best(selector.index, candidates, selector.best_pos) is None,
    ensures
        forall|id: Seq<char>|
            candidates.contains(id) && #[trigger] selector.index.contains_key(id) ==> !beats(
                selector.index[id],
                selector.best_pos,
            ),
{
    assert forall|id: Seq<char>|
        candidates.contains(id) && #[trigger] selector.index.contains_key(id) implies !beats(
        selector.index[id],
        selector.best_pos,
    ) by {
        if beats(selector.index[id], selector.best_pos) {
            lemma_best_exists(
                selector.index,
                candidates,
                selector.best_pos,
                id,
                usize::MAX as int,
            );
        }
    }
}

/// Considering candidates none of which is known, or no candidates at all, selects nothing.
pub proof fn lemma_consider_none(selector: SelectorView, candidates: Set<Seq<char>>)
    requires
        candidates.disjoint(selector.index.dom()),
    ensures
        selector.consider(candidates) == selector,
{
    if exists|id: Seq<char>| is_best(selector.index, candidates, selector.best_pos, id) {
        let id = choose|id: Seq<char>|
            is_best(selector.index, candidates, selector.best_pos, id);
        assert(selector.index.dom().contains(id));
    }
}

/// Considering a single receipt.
pub proof fn lemma_consider_one(selector: SelectorView, id: Seq<char>)
    requires
        selector.well_formed(),
    ensures
        selector.consider(set![id]) == if selector.index.contains_key(id) {
            selector.select(id, selector.index[id])
        } else {
            selector
        },
{
    let candidates = set![id];
    if selector.index.contains_key(id) && beats(selector.index[id], selector.best_pos) {
        assert(is_best(selector.index, candidates, selector.best_pos, id));
        lemma_best_unique(selector.index, candidates, selector.best_pos, id);
    } else {
        assert(forall|other: Seq<char>|
            !is_best(selector.index, candidates, selector.best_pos, other));
    }
}

/// Considering candidates in two steps is considering all of them at once.
pub proof fn lemma_consider_union(
    selector: SelectorView,
    first: Set<Seq<char>>,
    second: Set<Seq<char>>,
)
    requires
        selector.well_formed(),
    ensures
        selector.consider(first).consider(second) == selector.consider(first.union(second)),
        selector.consider(first).well_formed(),
{
    let index = selector.index;
    let floor = selector.best_pos;
    let all = first.union(second);
    let between = selector.consider(first);
    match best(index, first, floor) {
        Some(a) => {
            assert(is_best(index, first, floor, a));
            match best(index, second, between.best_pos) {
                Some(b) => {
                    assert(is_best(index, second, between.best_pos, b));
                    assert(is_best(index, all, floor, b));
                    lemma_best_unique(index, all, floor, b);
                },
                None => {
                    lemma_consider_unchanged(between, second);
                    assert(is_best(index, all, floor, a));
                    lemma_best_unique(index, all, floor, a);
                },
            }
        },
        None => {
            lemma_consider_unchanged(selector, first);
            match best(index, second, floor) {
                Some(b) => {
                    assert(is_best(index, second, floor, b));
                    assert(is_best(index, all, floor, b));
                    lemma_best_unique(index, all, floor, b);
                },
                None => {
                    lemma_consider_unchanged(selector, second);
                    assert(forall|id: Seq<char>| !is_best(index, all, floor, id));
                },
            }
        },
    }
}

/// Considering one more candidate.
pub proof fn lemma_consider_insert(
    selector: SelectorView,
    candidates: Set<Seq<char>>,
    id: Seq<char>,
)
    requires
        selector.well_formed(),
    ensures
        selector.consider(candidates.insert(id)) == if selector.index.contains_key(id) {
            selector.consider(candidates).select(id, selector.index[id])
        } else {
            selector.consider(candidates)
        },
{
    lemma_consider_union(selector, candidates, set![id]);
    assert(candidates.union(set![id]) =~= candidates.insert(id));
    lemma_consider_one(selector.consider(candidates), id);
}

/// What the user has read among one more event.
proof fn lemma_read_among_push(
    content: Map<Seq<char>, EventReceiptsView>,
    events: Seq<Seq<char>>,
    id: Seq<char>,
    user_id: Seq<char>,
)
    ensures
        read_among(content, events.push(id), user_id) == if has_read(content, id, user_id) {
            read_among(content, events, user_id).union(set![id])
        } else {
            read_among(content, events, user_id)
        },
{
    let after = read_among(content, events.push(id), user_id);
    let expected = if has_read(content, id, user_id) {
        read_among(content, events, user_id).union(set![id])
    } else {
        read_among(content, events, user_id)
    };
    assert forall|x: Seq<char>| #[trigger] after.contains(x) == expected.contains(x) by {
        assert(events.push(id).contains(x) == (events.contains(x) || x == id)) by {
            if events.contains(x) {
                let k = choose|k: int| 0 <= k < events.len() && events[k] == x;
                assert(events.push(id)[k] == x);
            }
            if x == id {
                assert(events.push(id)[events.len() as int] == x);
            }
        }
    }
    assert(after =~= expected);
}

} // verus!
