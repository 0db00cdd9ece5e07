//! Reversible edit records and the undo stack.
//!
//! A [`Change`] describes one mutation of the event store; applying a change
//! and then its reverse restores the store's live semantic content (the
//! undo round-trip law, [`lemma_undo_round_trip`]).

use vstd::prelude::*;

use crate::event::{Event, EventId, EventSem};
use crate::util::ts_valid;

verus! {

/// A reversible record of one event mutation.
#[derive(Clone, Debug)]
pub enum Change {
    Added { new: Event },
    Removed { prior: Event },
    Modified { prior: Event, new: Event },
}

/// Index of the first event with the given id, or -1 when there is none.
pub open spec fn find_by_id(s: Seq<Event>, id: Seq<char>) -> int
    decreases s.len(),
{
    if s.len() == 0 {
        -1
    } else if s[0].id@ == id {
        0
    } else {
        let r = find_by_id(s.drop_first(), id);
        if r < 0 {
            -1
        } else {
            r + 1
        }
    }
}

/// `find_by_id` returns -1 exactly when no event carries the id, and
/// otherwise the first index that does.
pub proof fn lemma_find_by_id(s: Seq<Event>, id: Seq<char>)
    ensures
        ({
            let r = find_by_id(s, id);
            &&& -1 <= r < s.len()
            &&& r >= 0 ==> s[r].id@ == id && (forall|j: int| 0 <= j < r ==> s[j].id@ != id)
            &&& r == -1 ==> (forall|j: int| 0 <= j < s.len() ==> s[j].id@ != id)
        }),
    decreases s.len(),
{
    if s.len() == 0 {
    } else if s[0].id@ == id {
    } else {
        let t = s.drop_first();
        lemma_find_by_id(t, id);
        let rt = find_by_id(t, id);
        if rt >= 0 {
            assert(s[rt + 1] == t[rt]);
            assert forall|j: int| 0 <= j < rt + 1 implies s[j].id@ != id by {
                if j > 0 {
                    assert(t[j - 1] == s[j]);
                    assert(t[j - 1].id@ != id);
                }
            }
        } else {
            assert forall|j: int| 0 <= j < s.len() implies s[j].id@ != id by {
                if j > 0 {
                    assert(t[j - 1] == s[j]);
                    assert(t[j - 1].id@ != id);
                }
            }
        }
    }
}

/// The semantic content of the live (not deletion-marked) events of a store.
pub open spec fn live_sems(s: Seq<Event>) -> Set<EventSem> {
    Set::new(
        |es: EventSem|
            exists|j: int| 0 <= j < s.len() && !(#[trigger] s[j]).deleted && s[j].sem() == es,
    )
}

/// What applying a change does to a store, as a function of the store. An
/// addition whose id is already stored revives that entry in place, which
/// keeps ids unique; it only arises when an undo re-adds an event whose
/// deletion is still pending sync.
pub open spec fn apply_spec(c: Change, s: Seq<Event>, now: i64) -> Seq<Event> {
    match c {
        Change::Added { new } => {
            let i = find_by_id(s, new.id@);
            if i < 0 {
                s.push(new.spec_marked_changed(now))
            } else {
                s.update(i, new.spec_marked_changed(now))
            }
        },
        Change::Removed { prior } => {
            let i = find_by_id(s, prior.id@);
            if i < 0 {
                s
            } else {
                s.update(i, s[i].spec_marked_deleted(now))
            }
        },
        Change::Modified { prior, new } => {
            let i = find_by_id(s, prior.id@);
            if i < 0 {
                s
            } else {
                s.update(i, new.spec_marked_changed(now))
            }
        },
    }
}

/// A change fits a store when the snapshot it carries matches the store:
/// an addition brings a fresh id, a removal or modification carries a copy
/// of the first stored event with that id, and a modification keeps the id.
pub open spec fn change_applicable(c: Change, s: Seq<Event>) -> bool {
    match c {
        Change::Added { new } => forall|j: int| 0 <= j < s.len() ==> (#[trigger] s[j]).id@ != new.id@,
        Change::Removed { prior } => {
            let i = find_by_id(s, prior.id@);
            i >= 0 && s[i] == prior
        },
        Change::Modified { prior, new } => {
            let i = find_by_id(s, prior.id@);
            i >= 0 && s[i] == prior && new.id@ == prior.id@
        },
    }
}

/// The events a change carries are well-formed, and a modification keeps
/// the event's identity.
pub open spec fn change_wf(c: Change) -> bool {
    match c {
        Change::Added { new } => new.wf(),
        Change::Removed { prior } => prior.wf(),
        Change::Modified { prior, new } => prior.wf() && new.wf() && new.id@ == prior.id@,
    }
}

impl Change {
    /// The reverse record: swap addition with removal, old with new.
    pub open spec fn spec_reverse(self) -> Change {
        match self {
            Change::Added { new } => Change::Removed { prior: new },
            Change::Removed { prior } => Change::Added { new: prior },
            Change::Modified { prior, new } => Change::Modified { prior: new, new: prior },
        }
    }

    /// Executable form of [`Change::spec_reverse`].
    pub fn reverse(self) -> (r: Change)
        ensures
            r == self.spec_reverse(),
    {
        match self {
            Change::Added { new } => Change::Removed { prior: new },
            Change::Removed { prior } => Change::Added { new: prior },
            Change::Modified { prior, new } => Change::Modified { prior: new, new: prior },
        }
    }

    /// Build the removal record for the first stored event with this id.
    pub fn new_removed(events: &Vec<Event>, event_id: &EventId) -> (r: Option<Change>)
        ensures
            ({
                let i = find_by_id(events@, event_id@);
                match r {
                    Some(c) => i >= 0 && c == (Change::Removed { prior: events@[i] }),
                    None => i == -1,
                }
            }),
    {
        proof {
            lemma_find_by_id(events@, event_id@);
        }
        match find_index_by_id(events, event_id) {
            Some(i) => Some(Change::Removed { prior: events[i].duplicate() }),
            None => None,
        }
    }

    /// Build the record for committing `changed_event`: a modification of
    /// the first stored event with the same id, or an addition when the id
    /// is new to the store.
    pub fn new_changed(events: &Vec<Event>, changed_event: Event) -> (r: Change)
        ensures
            ({
                let i = find_by_id(events@, changed_event.id@);
                if i >= 0 {
                    r == (Change::Modified { prior: events@[i], new: changed_event })
                } else {
                    r == (Change::Added { new: changed_event })
                }
            }),
    {
        proof {
            lemma_find_by_id(events@, changed_event.id@);
        }
        match find_index_by_id(events, &changed_event.id) {
            Some(i) => Change::Modified { prior: events[i].duplicate(), new: changed_event },
            None => Change::Added { new: changed_event },
        }
    }

    /// Apply the change to the store, stamping touched events with `now`.
    pub fn apply(&self, events: &mut Vec<Event>, now: i64)
        requires
            ts_valid(now),
        ensures
            final(events)@ == apply_spec(*self, old(events)@, now),
    {
        proof {
            match self {
                Change::Added { new } => {
                    lemma_find_by_id(old(events)@, new.id@);
                },
                Change::Removed { prior } => {
                    lemma_find_by_id(old(events)@, prior.id@);
                },
                Change::Modified { prior, .. } => {
                    lemma_find_by_id(old(events)@, prior.id@);
                },
            }
        }
        match self {
            Change::Added { new } => {
                let mut fresh = new.duplicate();
                fresh.mark_changed(now);
                match find_index_by_id(events, &fresh.id) {
                    Some(i) => {
                        events.set(i, fresh);
                    },
                    None => {
                        events.push(fresh);
                    },
                }
            },
            Change::Removed { prior } => {
                match find_index_by_id(events, &prior.id) {
                    Some(i) => {
                        let mut gone = events[i].duplicate();
                        gone.mark_deleted(now);
                        events.set(i, gone);
                    },
                    None => {},
                }
            },
            Change::Modified { prior, new } => {
                match find_index_by_id(events, &prior.id) {
                    Some(i) => {
                        let mut fresh = new.duplicate();
                        fresh.mark_changed(now);
                        events.set(i, fresh);
                    },
                    None => {},
                }
            },
        }
    }
}

impl Event {
    /// A field-by-field copy whose value Verus can track.
    pub fn duplicate(&self) -> (r: Event)
        ensures
            r == *self,
    {
        Event {
            id: self.id.clone(),
            calendar: self.calendar.clone(),
            title: self.title.clone(),
            description: match &self.description {
                Some(d) => Some(d.clone()),
                None => None,
            },
            start: self.start,
            end: self.end,
            timestamp: self.timestamp,
            created_at: self.created_at,
            modified_at: self.modified_at,
            color: self.color,
            changed: self.changed,
            deleted: self.deleted,
        }
    }
}

/// Index of the first stored event with the given id.
pub fn find_index_by_id(events: &Vec<Event>, id: &EventId) -> (r: Option<usize>)
    ensures
        ({
            let i = find_by_id(events@, id@);
            match r {
                Some(k) => k == i,
                None => i == -1,
            }
        }),
{
    proof {
        lemma_find_by_id(events@, id@);
    }
    let mut k: usize = 0;
    while k < events.len()
        invariant
            0 <= k <= events@.len(),
            forall|j: int| 0 <= j < k ==> (#[trigger] events@[j]).id@ != id@,
            ({
                let i = find_by_id(events@, id@);
                &&& -1 <= i < events@.len()
                &&& i >= 0 ==> events@[i].id@ == id@ && (forall|j: int|
                    0 <= j < i ==> events@[j].id@ != id@)
                &&& i == -1 ==> (forall|j: int| 0 <= j < events@.len() ==> events@[j].id@ != id@)
            }),
        decreases events@.len() - k,
    {
        if events[k].id == *id {
            return Some(k);
        }
        k = k + 1;
    }
    None
}

/// The ordered stack of reversible changes. It is cleared whenever the
/// store is replaced wholesale, so undo never crosses a reload.
#[derive(Clone, Debug)]
pub struct History {
    pub changes: Vec<Change>,
}

impl History {
    /// An empty undo stack.
    pub fn new() -> (r: History)
        ensures
            r.changes@ =~= Seq::<Change>::empty(),
    {
        History { changes: Vec::new() }
    }

    /// Drop every recorded change.
    pub fn clear(&mut self)
        ensures
            final(self).changes@ =~= Seq::<Change>::empty(),
    {
        self.changes.clear()
    }

    /// Push a committed change on the stack.
    pub fn save(&mut self, change: Change)
        ensures
            final(self).changes@ == old(self).changes@.push(change),
    {
        self.changes.push(change);
    }

    /// Pop the most recent change, if any.
    pub fn pop(&mut self) -> (r: Option<Change>)
        ensures
            old(self).changes@.len() == 0 ==> r is None && final(self).changes@
                == old(self).changes@,
            old(self).changes@.len() > 0 ==> r == Some(old(self).changes@.last())
                && final(self).changes@ == old(self).changes@.drop_last(),
    {
        self.changes.pop()
    }
}

/// Undo round-trip law: applying a change and then its reverse restores the
/// live semantic content of the event store, for additions, removals and
/// modifications alike. Dirty flags and modification stamps are sync
/// bookkeeping outside the semantic view (see [`Event::sem`]).
pub proof fn lemma_undo_round_trip(c: Change, s: Seq<Event>, n1: i64, n2: i64)
    requires
        change_applicable(c, s),
    ensures
        live_sems(apply_spec(c.spec_reverse(), apply_spec(c, s, n1), n2)) =~= live_sems(s),
{
    match c {
        Change::Added { new } => {
            lemma_find_by_id(s, new.id@);
            assert(find_by_id(s, new.id@) == -1) by {
                let r0 = find_by_id(s, new.id@);
                if r0 >= 0 {
                    assert(s[r0].id@ != new.id@);
                }
            }
            let s1 = s.push(new.spec_marked_changed(n1));
            lemma_find_by_id(s1, new.id@);
            let i = find_by_id(s1, new.id@);
            assert(s1[s.len() as int].id@ == new.id@);
            assert(i == s.len()) by {
                if i < s.len() {
                    assert(s[i].id@ != new.id@);
                    assert(s1[i] == s[i]);
                }
            }
            let s2 = s1.update(i, s1[i].spec_marked_deleted(n2));
            assert forall|es: EventSem| live_sems(s2).contains(es) implies live_sems(s).contains(
                es,
            ) by {
                let j = choose|j: int|
                    0 <= j < s2.len() && !(#[trigger] s2[j]).deleted && s2[j].sem() == es;
                assert(j != i);
                assert(s2[j] == s[j]);
            }
            assert forall|es: EventSem| live_sems(s).contains(es) implies live_sems(s2).contains(
                es,
            ) by {
                let j = choose|j: int|
                    0 <= j < s.len() && !(#[trigger] s[j]).deleted && s[j].sem() == es;
                assert(s2[j] == s[j]);
            }
        },
        Change::Removed { prior } => {
            lemma_find_by_id(s, prior.id@);
            let i = find_by_id(s, prior.id@);
            let s1 = s.update(i, s[i].spec_marked_deleted(n1));
            lemma_find_by_id(s1, prior.id@);
            let i1 = find_by_id(s1, prior.id@);
            assert(s1[i].id@ == prior.id@);
            assert(i1 == i) by {
                if i1 < i {
                    assert(s1[i1] == s[i1]);
                    assert(s[i1].id@ != prior.id@);
                } else if i1 > i {
                    assert(s1[i].id@ != prior.id@);
                }
            }
            let s2 = s1.update(i, prior.spec_marked_changed(n2));
            assert(s2[i].sem() == prior.sem() && s2[i].deleted == prior.deleted);
            assert forall|es: EventSem| live_sems(s2).contains(es) implies live_sems(s).contains(
                es,
            ) by {
                let j = choose|j: int|
                    0 <= j < s2.len() && !(#[trigger] s2[j]).deleted && s2[j].sem() == es;
                if j == i {
                    assert(s[i].sem() == es && !s[i].deleted);
                } else {
                    assert(s2[j] == s[j]);
                }
            }
            assert forall|es: EventSem| live_sems(s).contains(es) implies live_sems(s2).contains(
                es,
            ) by {
                let j = choose|j: int|
                    0 <= j < s.len() && !(#[trigger] s[j]).deleted && s[j].sem() == es;
                if j == i {
                    assert(s2[i].sem() == es && !s2[i].deleted);
                } else {
                    assert(s2[j] == s[j]);
                }
            }
        },
        Change::Modified { prior, new } => {
            lemma_find_by_id(s, prior.id@);
            let i = find_by_id(s, prior.id@);
            let s1 = s.update(i, new.spec_marked_changed(n1));
            lemma_find_by_id(s1, new.id@);
            let i1 = find_by_id(s1, new.id@);
            assert(s1[i].id@ == new.id@);
            assert(i1 == i) by {
                if i1 < i {
                    assert(s1[i1] == s[i1]);
                    assert(s[i1].id@ != prior.id@);
                } else if i1 > i {
                    assert(s1[i].id@ != new.id@);
                }
            }
            let s2 = s1.update(i, prior.spec_marked_changed(n2));
            assert(s2[i].sem() == prior.sem() && s2[i].deleted == prior.deleted);
            assert forall|es: EventSem| live_sems(s2).contains(es) implies live_sems(s).contains(
                es,
            ) by {
                let j = choose|j: int|
                    0 <= j < s2.len() && !(#[trigger] s2[j]).deleted && s2[j].sem() == es;
                if j == i {
                    assert(s[i].sem() == es && !s[i].deleted);
                } else {
                    assert(s2[j] == s[j]);
                }
            }
            assert forall|es: EventSem| live_sems(s).contains(es) implies live_sems(s2).contains(
                es,
            ) by {
                let j = choose|j: int|
                    0 <= j < s.len() && !(#[trigger] s[j]).deleted && s[j].sem() == es;
                if j == i {
                    assert(s2[i].sem() == es && !s2[i].deleted);
                } else {
                    assert(s2[j] == s[j]);
                }
            }
        },
    }
}

} // verus!
