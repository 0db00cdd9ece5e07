//! The calendar event record and its dirty-flag bookkeeping.
//!
//! All five time fields are timestamps in the engine's display timezone
//! (seconds since the epoch, see [`crate::util`]). The `changed` and
//! `deleted` flags are not semantic state: they only signal a pending sync
//! to the storage collaborator and are reset after a successful flush.

use vstd::prelude::*;

use crate::util::ts_valid;

verus! {

/// Stable identity of an event.
pub type EventId = String;

/// An RGB color, one byte per channel. The presentation layer scales the
/// channels to whatever range its painter wants.
#[derive(Clone, Copy, Debug, PartialEq, Eq, Structural)]
pub struct Color {
    pub red: u8,
    pub green: u8,
    pub blue: u8,
}

/// One time-blocked calendar item. The `end > start` invariant is enforced
/// by the mutation rules of the interaction engine, never by construction.
#[derive(Clone, Debug)]
pub struct Event {
    pub id: EventId,
    pub calendar: String,
    pub title: String,
    pub description: Option<String>,
    pub start: i64,
    pub end: i64,
    /// Last-sync marker (the RFC 5545 DTSTAMP field).
    pub timestamp: i64,
    pub created_at: i64,
    pub modified_at: i64,
    pub color: Color,
    /// Dirty flag: the event differs from what storage last saw.
    pub changed: bool,
    /// Dirty flag: the event awaits removal from storage.
    pub deleted: bool,
}

/// The semantic content of an event: everything except the dirty flags and
/// the modification stamp, which are sync bookkeeping refreshed on every
/// store mutation.
pub struct EventSem {
    pub id: Seq<char>,
    pub calendar: Seq<char>,
    pub title: Seq<char>,
    pub description: Option<Seq<char>>,
    pub start: int,
    pub end: int,
    pub timestamp: int,
    pub created_at: int,
    pub color: Color,
}

impl Event {
    /// All time fields lie in the engine's working range.
    pub open spec fn wf(self) -> bool {
        &&& ts_valid(self.start)
        &&& ts_valid(self.end)
        &&& ts_valid(self.timestamp)
        &&& ts_valid(self.created_at)
        &&& ts_valid(self.modified_at)
    }

    /// The semantic view used by the undo round-trip law.
    pub open spec fn sem(self) -> EventSem {
        EventSem {
            id: self.id@,
            calendar: self.calendar@,
            title: self.title@,
            description: match self.description {
                Some(d) => Some(d@),
                None => None,
            },
            start: self.start as int,
            end: self.end as int,
            timestamp: self.timestamp as int,
            created_at: self.created_at as int,
            color: self.color,
        }
    }

    /// The event after a `mark_changed(now)` call.
    pub open spec fn spec_marked_changed(self, now: i64) -> Event {
        Event { modified_at: now, changed: true, ..self }
    }

    /// The event after a `mark_deleted(now)` call.
    pub open spec fn spec_marked_deleted(self, now: i64) -> Event {
        Event { modified_at: now, deleted: true, ..self }
    }

    /// Stamp the event as locally modified.
    pub fn mark_changed(&mut self, now: i64)
        requires
            ts_valid(now),
        ensures
            *final(self) == old(self).spec_marked_changed(now),
    {
        self.modified_at = now;
        self.changed = true;
    }

    /// Stamp the event as awaiting deletion.
    pub fn mark_deleted(&mut self, now: i64)
        requires
            ts_valid(now),
        ensures
            *final(self) == old(self).spec_marked_deleted(now),
    {
        self.modified_at = now;
        self.deleted = true;
    }

    /// Clear both dirty flags after a successful flush to storage.
    pub fn reset_dirty_flags(&mut self)
        ensures
            *final(self) == (Event { changed: false, deleted: false, ..*old(self) }),
    {
        self.deleted = false;
        self.changed = false;
    }

    /// Seconds between the midnight starting the event's day and its start.
    pub fn start_second_of_day(&self) -> (s: i64)
        requires
            self.wf(),
        ensures
            s == crate::util::second_of_day(self.start as int),
            0 <= s < crate::util::SECS_PER_DAY,
    {
        crate::util::second_of_day_ts(self.start)
    }
}

} // verus!
