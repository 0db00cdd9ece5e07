//! The mutation rules for direct manipulation of events: moving and
//! resizing with the minimum-duration and day-boundary guards, plus the
//! helpers that search the store on behalf of the keyboard navigation.
//!
//! Invariant-violating attempts are silently rejected (the function is a
//! no-op), a policy choice that keeps gestures forgiving. A timestamp
//! outside the engine's working range is rejected the same way.

use vstd::prelude::*;

use crate::event::{Event, EventId};
use crate::history::{find_by_id, find_index_by_id, lemma_find_by_id};
use crate::util::{day_of, on_the_same_day, same_day, ts_valid, SECS_PER_DAY, TS_MAX};

verus! {

/// The guard of [`move_event_end`]: the new end keeps at least the minimum
/// duration, stays on the start's day, and stays in the working range.
pub open spec fn move_end_ok(ev: Event, new_end: i64, min_dur: i64) -> bool {
    &&& new_end >= ev.start + min_dur
    &&& ts_valid(new_end)
    &&& same_day(ev.start as int, new_end as int)
}

/// The guard of [`move_event_start`], symmetric to [`move_end_ok`].
pub open spec fn move_start_ok(ev: Event, new_start: i64, min_dur: i64) -> bool {
    &&& ev.end >= new_start + min_dur
    &&& ts_valid(new_start)
    &&& same_day(new_start as int, ev.end as int)
}

/// The guard of [`move_event`]: the shifted interval keeps to one day and
/// to the working range.
pub open spec fn move_ok(ev: Event, new_start: i64) -> bool {
    let new_end = new_start + ev.end - ev.start;
    &&& ts_valid(new_start)
    &&& ts_valid(new_end as i64)
    &&& same_day(new_start as int, new_end)
}

/// The event [`move_event_end`] leaves behind, as a function of its
/// arguments.
pub open spec fn move_end_result(ev: Event, new_end: i64, min_dur: i64, now: i64) -> Event {
    if move_end_ok(ev, new_end, min_dur) && ev.end != new_end {
        Event { end: new_end, ..ev.spec_marked_changed(now) }
    } else {
        ev
    }
}

/// Move the event's end. Rejected (a no-op) when the duration would fall
/// below `min_event_duration` or the end would leave the start's day;
/// setting the end to its current value is a no-op that marks nothing.
pub fn move_event_end(event: &mut Event, new_end: i64, min_event_duration: i64, now: i64)
    requires
        old(event).wf(),
        ts_valid(now),
        0 < min_event_duration <= SECS_PER_DAY,
    ensures
        final(event).wf(),
        !move_end_ok(*old(event), new_end, min_event_duration) ==> *final(event) == *old(event),
        move_end_ok(*old(event), new_end, min_event_duration) && old(event).end == new_end
            ==> *final(event) == *old(event),
        move_end_ok(*old(event), new_end, min_event_duration) && old(event).end != new_end
            ==> *final(event) == (Event { end: new_end, ..old(event).spec_marked_changed(now) }),
        move_end_ok(*old(event), new_end, min_event_duration) ==> final(event).end - final(event).start >= min_event_duration,
        *final(event) == move_end_result(*old(event), new_end, min_event_duration, now),
{
    if new_end < event.start + min_event_duration {
        return ;
    }
    if new_end > TS_MAX {
        return ;
    }
    if !on_the_same_day(event.start, new_end) {
        return ;
    }
    if event.end != new_end {
        event.mark_changed(now);
        event.end = new_end;
    }
}

/// The event [`move_event_start`] leaves behind, as a function of its
/// arguments.
pub open spec fn move_start_result(ev: Event, new_start: i64, min_dur: i64, now: i64) -> Event {
    if move_start_ok(ev, new_start, min_dur) && ev.start != new_start {
        Event { start: new_start, ..ev.spec_marked_changed(now) }
    } else {
        ev
    }
}

/// Move the event's start, symmetric to [`move_event_end`].
pub fn move_event_start(event: &mut Event, new_start: i64, min_event_duration: i64, now: i64)
    requires
        old(event).wf(),
        ts_valid(now),
        0 < min_event_duration <= SECS_PER_DAY,
    ensures
        final(event).wf(),
        !move_start_ok(*old(event), new_start, min_event_duration) ==> *final(event) == *old(
            event,
        ),
        move_start_ok(*old(event), new_start, min_event_duration) && old(event).start == new_start
            ==> *final(event) == *old(event),
        move_start_ok(*old(event), new_start, min_event_duration) && old(event).start != new_start
            ==> *final(event) == (Event {
            start: new_start,
            ..old(event).spec_marked_changed(now)
        }),
        move_start_ok(*old(event), new_start, min_event_duration) ==> final(event).end - final(event).start >= min_event_duration,
        *final(event) == move_start_result(*old(event), new_start, min_event_duration, now),
{
    if new_start > TS_MAX || new_start < 0 {
        return ;
    }
    if event.end < new_start + min_event_duration {
        return ;
    }
    if !on_the_same_day(new_start, event.end) {
        return ;
    }
    if event.start != new_start {
        event.mark_changed(now);
        event.start = new_start;
    }
}

/// The event [`move_event`] leaves behind, as a function of its arguments.
pub open spec fn move_result(ev: Event, new_start: i64, now: i64) -> Event {
    if move_ok(ev, new_start) && ev.start != new_start {
        Event {
            start: new_start,
            end: (new_start + ev.end - ev.start) as i64,
            ..ev.spec_marked_changed(now)
        }
    } else {
        ev
    }
}

/// Shift the whole event so it starts at `new_start`, preserving its
/// duration. Rejected (a no-op) when the shifted interval would span more
/// than one day.
pub fn move_event(event: &mut Event, new_start: i64, now: i64)
    requires
        old(event).wf(),
        ts_valid(now),
    ensures
        final(event).wf(),
        !move_ok(*old(event), new_start) ==> *final(event) == *old(event),
        move_ok(*old(event), new_start) && old(event).start == new_start ==> *final(event) == *old(
            event,
        ),
        move_ok(*old(event), new_start) && old(event).start != new_start ==> *final(event) == (
        Event {
            start: new_start,
            end: (new_start + old(event).end - old(event).start) as i64,
            ..old(event).spec_marked_changed(now)
        }),
        move_ok(*old(event), new_start) ==> final(event).end - final(event).start == old(event).end - old(event).start,
        *final(event) == move_result(*old(event), new_start, now),
{
    if new_start > TS_MAX || new_start < 0 {
        return ;
    }
    let duration: i64 = event.end - event.start;
    let new_end: i64 = new_start + duration;
    if new_end > TS_MAX || new_end < 0 {
        return ;
    }
    if !on_the_same_day(new_start, new_end) {
        return ;
    }
    proof {
        assert(old(event).start == new_start ==> new_end == old(event).end);
    }
    if event.start != new_start || event.end != new_end {
        event.mark_changed(now);
        event.start = new_start;
        event.end = new_end;
    }
}

/// Mark every event whose title is empty as deleted; the storage
/// collaborator removes them on the next flush.
pub fn remove_empty_events(events: &mut Vec<Event>, now: i64)
    requires
        ts_valid(now),
    ensures
        final(events)@.len() == old(events)@.len(),
        forall|i: int|
            0 <= i < old(events)@.len() ==> final(events)@[i] == (if (#[trigger] old(
                events,
            )@[i]).title@.len() == 0 {
                old(events)@[i].spec_marked_deleted(now)
            } else {
                old(events)@[i]
            }),
{
    let mut i: usize = 0;
    while i < events.len()
        invariant
            ts_valid(now),
            0 <= i <= events@.len(),
            events@.len() == old(events)@.len(),
            forall|j: int|
                0 <= j < i ==> events@[j] == (if (#[trigger] old(events)@[j]).title@.len() == 0 {
                    old(events)@[j].spec_marked_deleted(now)
                } else {
                    old(events)@[j]
                }),
            forall|j: int| i <= j < events@.len() ==> events@[j] == (#[trigger] old(events)@[j]),
        decreases events@.len() - i,
    {
        if events[i].title.as_str().is_empty() {
            let mut gone = events[i].duplicate();
            gone.mark_deleted(now);
            events.set(i, gone);
        }
        i = i + 1;
    }
}

/// An event as the per-frame renderer sees it: either straight from the
/// store, or the working copy of the one event being manipulated.
#[derive(Clone, Debug)]
pub enum CombinedEvent {
    ExistingEvent(Event),
    InteractingEvent(Event),
}

impl CombinedEvent {
    /// The carried event.
    pub open spec fn spec_event(self) -> Event {
        match self {
            CombinedEvent::ExistingEvent(ev) => ev,
            CombinedEvent::InteractingEvent(ev) => ev,
        }
    }

    /// The carried event.
    pub fn event(&self) -> (r: &Event)
        ensures
            *r == self.spec_event(),
    {
        match self {
            CombinedEvent::ExistingEvent(ev) => ev,
            CombinedEvent::InteractingEvent(ev) => ev,
        }
    }

    /// The carried event's identity.
    pub fn event_id(&self) -> (r: &EventId)
        ensures
            *r == self.spec_event().id,
    {
        &self.event().id
    }
}

/// What [`combine_events`] returns: every stored event, with the working
/// copy of the interacting event replacing its stored version (or appended,
/// when it is new to the store).
pub open spec fn combine_events_spec(events: Seq<Event>, interacting: Option<Event>) -> Seq<
    CombinedEvent,
> {
    let base = events.map_values(|e: Event| CombinedEvent::ExistingEvent(e));
    match interacting {
        None => base,
        Some(ie) => {
            let i = find_by_id(events, ie.id@);
            if i >= 0 {
                base.update(i, CombinedEvent::InteractingEvent(ie))
            } else {
                base.push(CombinedEvent::InteractingEvent(ie))
            }
        },
    }
}

/// Merge the store with the event currently being manipulated, so the
/// renderer and the layout engine see the working copy in place of the
/// stored one.
pub fn combine_events(events: &Vec<Event>, interacting: Option<Event>) -> (r: Vec<CombinedEvent>)
    ensures
        r@ == combine_events_spec(events@, interacting),
{
    let ghost base = events@.map_values(|e: Event| CombinedEvent::ExistingEvent(e));
    let mut out: Vec<CombinedEvent> = Vec::new();
    let mut i: usize = 0;
    while i < events.len()
        invariant
            0 <= i <= events@.len(),
            base == events@.map_values(|e: Event| CombinedEvent::ExistingEvent(e)),
            out@ == base.take(i as int),
        decreases events@.len() - i,
    {
        out.push(CombinedEvent::ExistingEvent(events[i].duplicate()));
        proof {
            assert(base[i as int] == CombinedEvent::ExistingEvent(events@[i as int]));
            assert(out@ =~= base.take(i as int + 1));
        }
        i = i + 1;
    }
    proof {
        assert(base.take(events@.len() as int) =~= base);
    }
    match interacting {
        None => out,
        Some(ie) => {
            proof {
                lemma_find_by_id(events@, ie.id@);
            }
            match find_index_by_id(events, &ie.id) {
                Some(k) => {
                    out.set(k, CombinedEvent::InteractingEvent(ie));
                    out
                },
                None => {
                    out.push(CombinedEvent::InteractingEvent(ie));
                    out
                },
            }
        },
    }
}

/// Distance between an event's start and a reference time.
pub open spec fn start_dist(ev: Event, t: i64) -> int {
    if ev.start >= t {
        ev.start - t
    } else {
        t - ev.start
    }
}

/// The id of the event whose start is nearest to `now` (the earliest-listed
/// one on a tie), or nothing when the store is empty.
pub fn find_nearest_event(events: &Vec<Event>, now: i64) -> (r: Option<EventId>)
    requires
        forall|i: int| 0 <= i < events@.len() ==> (#[trigger] events@[i]).wf(),
        ts_valid(now),
    ensures
        (r is None) == (events@.len() == 0),
        r matches Some(id) ==> exists|i: int|
            {
                &&& 0 <= i < events@.len()
                &&& id == (#[trigger] events@[i]).id
                &&& forall|j: int|
                    0 <= j < events@.len() ==> start_dist(#[trigger] events@[j], now) >= start_dist(
                        events@[i],
                        now,
                    )
                &&& forall|j: int|
                    0 <= j < i ==> start_dist(#[trigger] events@[j], now) > start_dist(
                        events@[i],
                        now,
                    )
            },
{
    if events.len() == 0 {
        return None;
    }
    let mut best: usize = 0;
    let mut i: usize = 1;
    while i < events.len()
        invariant
            forall|k: int| 0 <= k < events@.len() ==> (#[trigger] events@[k]).wf(),
            ts_valid(now),
            0 < events@.len(),
            0 <= best < i <= events@.len(),
            forall|j: int|
                0 <= j < i ==> start_dist(#[trigger] events@[j], now) >= start_dist(
                    events@[best as int],
                    now,
                ),
            forall|j: int|
                0 <= j < best ==> start_dist(#[trigger] events@[j], now) > start_dist(
                    events@[best as int],
                    now,
                ),
        decreases events@.len() - i,
    {
        let di: i64 = if events[i].start >= now {
            events[i].start - now
        } else {
            now - events[i].start
        };
        let db: i64 = if events[best].start >= now {
            events[best].start - now
        } else {
            now - events[best].start
        };
        if di < db {
            best = i;
        }
        i = i + 1;
    }
    Some(events[best].id.clone())
}

/// A direction of keyboard navigation.
#[derive(Clone, Copy, Debug, PartialEq, Eq, Structural)]
pub enum Direction {
    Left,
    Right,
    Up,
    Down,
}

/// Largest reference time the nearest-start search accepts; generous enough
/// for any valid timestamp shifted by the day offsets the callers use.
pub const SEARCH_T_MAX: i64 = 0x8_0000_0000_0000;

/// Distance between an event's start and an arbitrary reference time.
pub open spec fn start_dist_to(ev: Event, t: i64) -> int {
    if ev.start >= t {
        ev.start - t
    } else {
        t - ev.start
    }
}

/// Index of the event whose start is nearest to `t` (the earliest-listed
/// one on a tie).
fn nearest_start_index(events: &Vec<Event>, t: i64) -> (r: Option<usize>)
    requires
        forall|i: int| 0 <= i < events@.len() ==> (#[trigger] events@[i]).wf(),
        -SEARCH_T_MAX <= t <= SEARCH_T_MAX,
    ensures
        (r is None) == (events@.len() == 0),
        r matches Some(c) ==> {
            &&& 0 <= c < events@.len()
            &&& forall|j: int|
                0 <= j < events@.len() ==> start_dist_to(#[trigger] events@[j], t) >= start_dist_to(
                    events@[c as int],
                    t,
                )
            &&& forall|j: int|
                0 <= j < c ==> start_dist_to(#[trigger] events@[j], t) > start_dist_to(
                    events@[c as int],
                    t,
                )
        },
{
    if events.len() == 0 {
        return None;
    }
    let mut best: usize = 0;
    let mut i: usize = 1;
    while i < events.len()
        invariant
            forall|k: int| 0 <= k < events@.len() ==> (#[trigger] events@[k]).wf(),
            -SEARCH_T_MAX <= t <= SEARCH_T_MAX,
            0 < events@.len(),
            0 <= best < i <= events@.len(),
            forall|j: int|
                0 <= j < i ==> start_dist_to(#[trigger] events@[j], t) >= start_dist_to(
                    events@[best as int],
                    t,
                ),
            forall|j: int|
                0 <= j < best ==> start_dist_to(#[trigger] events@[j], t) > start_dist_to(
                    events@[best as int],
                    t,
                ),
        decreases events@.len() - i,
    {
        let di: i64 = if events[i].start >= t {
            events[i].start - t
        } else {
            t - events[i].start
        };
        let db: i64 = if events[best].start >= t {
            events[best].start - t
        } else {
            t - events[best].start
        };
        if di < db {
            best = i;
        }
        i = i + 1;
    }
    Some(best)
}

/// What the sideways focus search returns: with the focused event found at
/// index `i`, some nearest-start candidate `c` for the shifted reference
/// time decides the result, accepted only when it is a different event on
/// a different day.
pub open spec fn juxtaposed_post(
    events: Seq<Event>,
    id: Seq<char>,
    offset_days: int,
    r: Option<EventId>,
) -> bool {
    let i = find_by_id(events, id);
    if i == -1 {
        r is None
    } else {
        exists|c: int|
            {
                let t = events[i].start + offset_days * (SECS_PER_DAY as int);
                &&& 0 <= c < events.len()
                &&& forall|j: int|
                    0 <= j < events.len() ==> start_dist_to(#[trigger] events[j], t as i64)
                        >= start_dist_to(#[trigger] events[c], t as i64)
                &&& r == (if events[c].id@ != events[i].id@ && day_of(events[c].start as int)
                    != day_of(events[i].start as int) {
                    Some(events[c].id)
                } else {
                    None::<EventId>
                })
            }
    }
}

/// Move the focus one day to the side: find the event whose start is
/// nearest to the focused event's start shifted by `offset_days`, and
/// accept it only when it is a different event on a different day.
pub fn find_juxtaposed_event(event_id: &EventId, offset_days: i64, events: &Vec<Event>) -> (r:
    Option<EventId>)
    requires
        forall|i: int| 0 <= i < events@.len() ==> (#[trigger] events@[i]).wf(),
        -366 <= offset_days <= 366,
    ensures
        juxtaposed_post(events@, event_id@, offset_days as int, r),
{
    proof {
        lemma_find_by_id(events@, event_id@);
    }
    let i = match find_index_by_id(events, event_id) {
        Some(i) => i,
        None => {
            return None;
        },
    };
    let t: i64 = events[i].start + offset_days * SECS_PER_DAY;
    let c = match nearest_start_index(events, t) {
        Some(c) => c,
        None => {
            return None;
        },
    };
    let different_event = !(events[c].id == events[i].id);
    let different_day = day_of_exec(events[c].start) != day_of_exec(events[i].start);
    if different_event && different_day {
        Some(events[c].id.clone())
    } else {
        None
    }
}

/// Executable day number of a timestamp (see [`crate::util::day_of`]).
fn day_of_exec(t: i64) -> (d: i64)
    requires
        t >= 0,
    ensures
        d == day_of(t as int),
{
    crate::util::day_of_ts(t)
}

/// What the store-order focus search returns: the id `offset` places away
/// from the focused event, or nothing when either end of the store is hit.
pub open spec fn adjacent_result(events: Seq<Event>, id: Seq<char>, offset: int) -> Option<
    EventId,
> {
    let i = find_by_id(events, id);
    if i == -1 {
        None
    } else {
        let ni = i + offset;
        if 0 <= ni < events.len() {
            Some(events[ni].id)
        } else {
            None
        }
    }
}

/// Move the focus to the event `offset` places away in store order.
pub fn find_adjacent_event(event_id: &EventId, offset: i64, events: &Vec<Event>) -> (r: Option<
    EventId,
>)
    requires
        -1000 <= offset <= 1000,
        events@.len() < 0x1000_0000_0000_0000,
    ensures
        r == adjacent_result(events@, event_id@, offset as int),
{
    proof {
        lemma_find_by_id(events@, event_id@);
    }
    let i = match find_index_by_id(events, event_id) {
        Some(i) => i,
        None => {
            return None;
        },
    };
    let ni: i64 = i as i64 + offset;
    if ni < 0 || ni >= events.len() as i64 {
        return None;
    }
    Some(events[ni as usize].id.clone())
}

/// Dispatch a navigation direction to the matching focus search: sideways
/// moves look a day across, vertical moves walk the store order.
pub fn find_next_focus(event_id: &EventId, dir: Direction, events: &Vec<Event>) -> (r: Option<
    EventId,
>)
    requires
        forall|i: int| 0 <= i < events@.len() ==> (#[trigger] events@[i]).wf(),
        events@.len() < 0x1000_0000_0000_0000,
    ensures
        match dir {
            Direction::Left => juxtaposed_post(events@, event_id@, -1, r),
            Direction::Right => juxtaposed_post(events@, event_id@, 1, r),
            Direction::Up => r == adjacent_result(events@, event_id@, -1),
            Direction::Down => r == adjacent_result(events@, event_id@, 1),
        },
{
    match dir {
        Direction::Left => find_juxtaposed_event(event_id, -1, events),
        Direction::Right => find_juxtaposed_event(event_id, 1, events),
        Direction::Up => find_adjacent_event(event_id, -1, events),
        Direction::Down => find_adjacent_event(event_id, 1, events),
    }
}

} // verus!
