//! The schedule engine: the event store, the edit history, the widget
//! geometry, and the temporal mapping between pixel space and timestamps.
//!
//! All times are seconds in the display timezone (see [`crate::util`]);
//! all lengths are integer pixels (see [`crate::geom`]).

use vstd::prelude::*;

use vstd::arithmetic::div_mod::{
    lemma_div_is_ordered, lemma_div_is_ordered_by_denominator, lemma_div_multiples_vanish,
    lemma_div_pos_is_pos, lemma_fundamental_div_mod, lemma_fundamental_div_mod_converse,
    lemma_mod_bound, lemma_mod_multiples_basic,
};

use crate::event::{Color, Event};
use crate::geom::{Pos, Rect, PX_MAX};
use crate::history::History;
use crate::event::EventId;
use crate::layout::{
    find_span, has_span, overlaps_spec, span_at, span_overlap, Ev, Layout, Span,
};
use crate::mutation::CombinedEvent;
use crate::util::{day_of, second_of_day, ts_valid, SECS_PER_DAY, TS_MAX};

verus! {

/// A well-formed store: bounded, well-formed events with unique ids.
pub open spec fn store_wf(events: Seq<Event>) -> bool {
    &&& events.len() < 0x1000_0000
    &&& forall|i: int| 0 <= i < events.len() ==> (#[trigger] events[i]).wf()
    &&& forall|i: int, j: int|
        0 <= i < j < events.len() ==> (#[trigger] events[i]).id@ != (#[trigger] events[j]).id@
}

/// The schedule widget's engine: geometry parameters, the visible window,
/// the authoritative event store, and the undo history.
#[derive(Debug)]
pub struct ScheduleUi {
    /// How many days are visible.
    pub day_count: usize,
    /// Width of one day column, pixels.
    pub day_width: i64,
    /// Narrowest acceptable day column, pixels.
    pub day_min_width: i64,
    /// Widest acceptable day column, pixels.
    pub day_max_width: i64,
    /// How many horizontal time segments subdivide a day.
    pub segment_count: usize,
    /// Height of one time segment, pixels.
    pub segment_height: i64,
    /// Width reserved on the left for time marks, pixels.
    pub time_marker_margin_width: i64,
    /// Height reserved on top for day headers, pixels.
    pub day_header_margin_height: i64,
    /// First visible date, as a day number since the epoch.
    pub first_day: i64,
    /// Margin kept free at the right of each day column for creating new
    /// events, pixels.
    pub new_event_margin: i64,
    /// The current wall-clock time, when known.
    pub current_time: Option<i64>,
    /// Height of the resize handles at an event's top and bottom edges,
    /// pixels.
    pub resizer_height: i64,
    /// Horizontal inset of the resize handles, pixels.
    pub resizer_width_margin: i64,
    /// Shortest duration an event may be given, seconds.
    pub min_event_duration: i64,
    /// Granularity of snapped pointer times, seconds.
    pub snapping_duration: i64,
    /// Color given to newly created events.
    pub new_event_color: Color,
    /// Display timezone, as seconds east of UTC.
    pub timezone_offset: i64,
    /// Calendar name given to newly created events.
    pub new_event_calendar: String,
    /// The visible window moved; the application should reload events.
    pub scope_updated: bool,
    /// A full backend refresh was requested.
    pub refresh_requested: bool,
    /// The authoritative in-memory event store for the visible window.
    pub events: Vec<Event>,
    /// The undo stack.
    pub history: History,
}

impl ScheduleUi {
    /// The geometry parameters, the window, and the store are all within
    /// the engine's working ranges.
    pub open spec fn wf(self) -> bool {
        &&& 1 <= self.day_count <= 1000
        &&& 0 < self.day_width <= 100_000
        &&& 0 < self.day_min_width <= self.day_max_width <= 100_000
        &&& 1 <= self.segment_count <= 1000
        &&& 0 < self.segment_height <= 100_000
        &&& 0 <= self.time_marker_margin_width <= 100_000
        &&& 0 <= self.day_header_margin_height <= 100_000
        &&& 0 <= self.new_event_margin < self.day_min_width
        &&& self.day_min_width <= self.day_width
        &&& 0 <= self.resizer_height <= 100_000
        &&& 0 <= self.resizer_width_margin <= 100_000
        &&& 0 < self.min_event_duration <= SECS_PER_DAY
        &&& 0 < self.snapping_duration <= SECS_PER_DAY
        &&& 0 <= self.first_day <= 100_000_000
        &&& -50400 <= self.timezone_offset <= 50400
        &&& match self.current_time {
            Some(t) => ts_valid(t),
            None => true,
        }
        &&& store_wf(self.events@)
        &&& forall|k: int|
            0 <= k < self.history.changes@.len() ==> crate::history::change_wf(
                #[trigger] self.history.changes@[k],
            )
    }

    /// A fresh engine showing `day_count` days from `first_day`, with the
    /// defaults the application ships: 260 px day columns (100-260 px when
    /// refitted), 24 segments of 80 px, 15-minute minimum duration and
    /// snapping.
    pub fn new(
        first_day: i64,
        day_count: usize,
        timezone_offset: i64,
        new_event_calendar: String,
        current_time: Option<i64>,
    ) -> (r: ScheduleUi)
        requires
            0 <= first_day <= 100_000_000,
            1 <= day_count <= 1000,
            -50400 <= timezone_offset <= 50400,
            match current_time {
                Some(t) => ts_valid(t),
                None => true,
            },
        ensures
            r.wf(),
            r.first_day == first_day,
            r.day_count == day_count,
            r.timezone_offset == timezone_offset,
            r.new_event_calendar == new_event_calendar,
            r.current_time == current_time,
            r.events@.len() == 0,
            r.history.changes@.len() == 0,
            r.min_event_duration == 900 && r.snapping_duration == 900,
            !r.scope_updated && !r.refresh_requested,
    {
        ScheduleUi {
            day_count,
            day_width: 260,
            day_min_width: 100,
            day_max_width: 260,
            segment_count: 24,
            segment_height: 80,
            time_marker_margin_width: 80,
            day_header_margin_height: 60,
            first_day,
            new_event_margin: 20,
            current_time,
            resizer_height: 5,
            resizer_width_margin: 20,
            min_event_duration: 900,
            snapping_duration: 900,
            new_event_color: Color { red: 120, green: 180, blue: 240 },
            timezone_offset,
            new_event_calendar,
            scope_updated: false,
            refresh_requested: false,
            events: Vec::new(),
            history: History::new(),
        }
    }

    /// Height of the day grid, pixels.
    pub open spec fn spec_content_height(self) -> int {
        self.segment_height * self.segment_count
    }

    /// Height of the day grid, pixels.
    pub fn content_height(&self) -> (h: i64)
        requires
            self.wf(),
        ensures
            h == self.spec_content_height(),
            0 < h <= 100_000_000,
    {
        proof {
            assert(0 < self.segment_height * (self.segment_count as int)
                <= 100_000_000) by (nonlinear_arith)
                requires
                    0 < self.segment_height <= 100_000,
                    1 <= self.segment_count <= 1000,
            ;
        }
        self.segment_height * (self.segment_count as i64)
    }

    /// Width of the day grid, pixels.
    pub open spec fn spec_content_width(self) -> int {
        self.day_width * self.day_count
    }

    /// Width of the day grid, pixels.
    pub fn content_width(&self) -> (w: i64)
        requires
            self.wf(),
        ensures
            w == self.spec_content_width(),
            0 < w <= 100_000_000,
    {
        proof {
            assert(0 < self.day_width * (self.day_count as int) <= 100_000_000) by (nonlinear_arith)
                requires
                    0 < self.day_width <= 100_000,
                    1 <= self.day_count <= 1000,
            ;
        }
        self.day_width * (self.day_count as i64)
    }

    /// The offset of the day grid within the widget: right of the time
    /// marks, below the day headers.
    pub fn content_offset(&self) -> (o: Pos)
        requires
            self.wf(),
        ensures
            o.x == self.time_marker_margin_width,
            o.y == self.day_header_margin_height,
    {
        Pos { x: self.time_marker_margin_width, y: self.day_header_margin_height }
    }

    /// The unsnapped pointer mapping: a position strictly inside the grid
    /// becomes a timestamp on the pointed-at day, rounded to the nearest
    /// whole minute.
    pub open spec fn spec_pointer_time(self, pos: Pos) -> Option<i64> {
        let h = self.spec_content_height();
        if !(0 <= pos.x < self.spec_content_width()) {
            None
        } else if !(0 < pos.y < h) {
            None
        } else {
            let day = self.first_day + (pos.x as int) / (self.day_width as int);
            let minutes = (2880 * pos.y + h) / (2 * h);
            Some((day * (SECS_PER_DAY as int) + 60 * minutes) as i64)
        }
    }

    /// Map a pointer position (relative to the grid) to an exact timestamp:
    /// the day comes from the column under `pos.x`, the time of day from the
    /// vertical fraction, rounded to the nearest minute. Positions outside
    /// the grid map to nothing.
    pub fn pointer_pos_to_datetime(&self, pos: Pos) -> (r: Option<i64>)
        requires
            self.wf(),
            pos.bounded(),
        ensures
            r == self.spec_pointer_time(pos),
            r matches Some(t) ==> ts_valid(t) && second_of_day(t as int) % 60 == 0,
    {
        let h = self.content_height();
        let w = self.content_width();
        if !(0 <= pos.x && pos.x < w) {
            return None;
        }
        if !(0 < pos.y && pos.y < h) {
            return None;
        }
        let day_idx: i64 = (pos.x as u64 / self.day_width as u64) as i64;
        proof {
            let x = pos.x as int;
            let dw = self.day_width as int;
            lemma_fundamental_div_mod(x, dw);
            lemma_mod_bound(x, dw);
            assert(0 <= x / dw < self.day_count as int) by (nonlinear_arith)
                requires
                    x == dw * (x / dw) + x % dw,
                    0 <= x % dw < dw,
                    0 < dw,
                    0 <= x < dw * (self.day_count as int),
            ;
        }
        let day: i64 = self.first_day + day_idx;
        let minutes: i64 = (((2880 * pos.y + h) as u64) / ((2 * h) as u64)) as i64;
        proof {
            let a = 2880 * (pos.y as int) + h as int;
            let d = 2 * (h as int);
            lemma_fundamental_div_mod(a, d);
            lemma_mod_bound(a, d);
            assert(0 <= a / d <= 1440) by (nonlinear_arith)
                requires
                    a == d * (a / d) + a % d,
                    0 <= a % d < d,
                    d == 2 * (h as int),
                    0 < h as int,
                    a == 2880 * (pos.y as int) + h as int,
                    0 < (pos.y as int) < (h as int),
            ;
        }
        let t: i64 = day * SECS_PER_DAY + 60 * minutes;
        proof {
            let ti = t as int;
            let spd = SECS_PER_DAY as int;
            if 60 * minutes < SECS_PER_DAY {
                lemma_fundamental_div_mod_converse(ti, spd, day as int, 60 * (minutes as int));
                assert(second_of_day(ti) == 60 * minutes);
                lemma_mod_multiples_basic(minutes as int, 60);
                assert(60 * (minutes as int) == (minutes as int) * 60);
            } else {
                assert(60 * minutes == SECS_PER_DAY);
                assert(ti == (day as int + 1) * spd + 0);
                lemma_fundamental_div_mod_converse(ti, spd, day as int + 1, 0);
                assert(second_of_day(ti) == 0);
            }
        }
        Some(t)
    }

    /// The snapped pointer mapping: the time of day is floored to a
    /// multiple of the snapping duration and capped at the next midnight.
    /// The pointer may reach below the grid, so that the end of the day can
    /// be snapped to; positions above or beside the grid map to nothing.
    pub open spec fn spec_pointer_time_snapped(self, pos: Pos) -> Option<i64> {
        let h = self.spec_content_height();
        let snap = self.snapping_duration as int;
        if !(0 <= pos.x < self.spec_content_width()) {
            None
        } else if pos.y < 0 {
            None
        } else {
            let day = self.first_day + (pos.x as int) / (self.day_width as int);
            let raw = (86400 * pos.y) / (h * snap);
            let snapped = if raw * snap > 86400 {
                86400int
            } else {
                raw * snap
            };
            Some((day * (SECS_PER_DAY as int) + snapped) as i64)
        }
    }

    /// Map a pointer position to a snapped timestamp: the pointed-at day's
    /// midnight plus the vertical fraction of the day floored to a multiple
    /// of the snapping duration (so the result's second of day is always
    /// such a multiple, the snapping guarantee).
    pub fn pointer_pos_to_datetime_snapping(&self, pos: Pos) -> (r: Option<i64>)
        requires
            self.wf(),
            pos.bounded(),
        ensures
            r == self.spec_pointer_time_snapped(pos),
            r matches Some(t) ==> ts_valid(t) && second_of_day(t as int) % (
            self.snapping_duration as int) == 0,
    {
        let h = self.content_height();
        let w = self.content_width();
        if !(0 <= pos.x && pos.x < w) {
            return None;
        }
        if pos.y < 0 {
            return None;
        }
        let day_idx: i64 = (pos.x as u64 / self.day_width as u64) as i64;
        proof {
            let x = pos.x as int;
            let dw = self.day_width as int;
            lemma_fundamental_div_mod(x, dw);
            lemma_mod_bound(x, dw);
            assert(0 <= x / dw < self.day_count as int) by (nonlinear_arith)
                requires
                    x == dw * (x / dw) + x % dw,
                    0 <= x % dw < dw,
                    0 < dw,
                    0 <= x < dw * (self.day_count as int),
            ;
        }
        let day: i64 = self.first_day + day_idx;
        let snap: i64 = self.snapping_duration;
        proof {
            assert(0 < (h as int) * (snap as int) <= 0x2000_0000_0000) by (nonlinear_arith)
                requires
                    0 < (h as int) <= 100_000_000,
                    0 < (snap as int) <= 86400,
            ;
        }
        let denom: i64 = h * snap;
        let raw: i64 = ((86400 * pos.y) as u64 / denom as u64) as i64;
        proof {
            let a = 86400 * (pos.y as int);
            let d = denom as int;
            lemma_fundamental_div_mod(a, d);
            lemma_mod_bound(a, d);
            assert(0 <= raw as int && (raw as int) * (snap as int) <= a) by (nonlinear_arith)
                requires
                    a == d * (raw as int) + a % d,
                    0 <= a % d < d,
                    d == (h as int) * (snap as int),
                    0 < (h as int),
                    0 < (snap as int),
                    0 <= a,
                    raw as int == a / d,
            ;
        }
        let scaled: i64 = raw * snap;
        let snapped: i64 = if scaled > 86400 {
            86400
        } else {
            scaled
        };
        let t: i64 = day * SECS_PER_DAY + snapped;
        proof {
            let ti = t as int;
            let spd = SECS_PER_DAY as int;
            let snapi = self.snapping_duration as int;
            if snapped < 86400 {
                lemma_fundamental_div_mod_converse(ti, spd, day as int, snapped as int);
                assert(second_of_day(ti) == (raw as int) * snapi);
                lemma_mod_multiples_basic(raw as int, snapi);
            } else {
                assert(ti == (day as int + 1) * spd + 0);
                lemma_fundamental_div_mod_converse(ti, spd, day as int + 1, 0);
                assert(second_of_day(ti) == 0);
                lemma_mod_multiples_basic(0, snapi);
                assert(0 * snapi == 0);
            }
        }
        Some(t)
    }

    /// Snap a timestamp to the nearest multiple of the snapping duration
    /// (ties round up).
    pub fn snap_to_nearest(&self, t: i64) -> (r: i64)
        requires
            self.wf(),
            ts_valid(t),
        ensures
            r as int == ((2 * t + self.snapping_duration) / (2 * self.snapping_duration))
                * (self.snapping_duration as int),
            (r as int) % (self.snapping_duration as int) == 0,
            0 <= r <= TS_MAX + SECS_PER_DAY,
    {
        let snap: i64 = self.snapping_duration;
        let m: i64 = (((2 * t + snap) as u64) / ((2 * snap) as u64)) as i64;
        proof {
            let a = 2 * (t as int) + snap as int;
            let d = 2 * (snap as int);
            lemma_fundamental_div_mod(a, d);
            lemma_mod_bound(a, d);
            assert(0 <= (m as int) * (snap as int) && (m as int) * (snap as int) <= (t as int)
                + snap as int) by (nonlinear_arith)
                requires
                    a == d * (m as int) + a % d,
                    0 <= a % d < d,
                    d == 2 * (snap as int),
                    0 < (snap as int),
                    a == 2 * (t as int) + snap as int,
                    0 <= t as int,
                    m as int == a / d,
            ;
            lemma_mod_multiples_basic(m as int, snap as int);
        }
        m * snap
    }

    /// Map a pointer position to a timestamp, snapped unless the caller
    /// asks for the exact variant (holding a modifier key during the
    /// gesture disables snapping).
    pub fn pointer_to_datetime_auto(&self, pos: Pos, snapping: bool) -> (r: Option<i64>)
        requires
            self.wf(),
            pos.bounded(),
        ensures
            snapping ==> r == self.spec_pointer_time_snapped(pos),
            !snapping ==> r == self.spec_pointer_time(pos),
            r matches Some(t) ==> ts_valid(t),
    {
        if snapping {
            self.pointer_pos_to_datetime_snapping(pos)
        } else {
            self.pointer_pos_to_datetime(pos)
        }
    }

    /// The visible-day index of a date (a day number), when it is visible.
    pub fn date_to_day(&self, date: i64) -> (r: Option<usize>)
        requires
            self.wf(),
        ensures
            self.first_day <= date < self.first_day + self.day_count ==> r == Some(
                (date - self.first_day) as usize,
            ),
            !(self.first_day <= date < self.first_day + self.day_count) ==> r is None,
    {
        if date < self.first_day {
            return None;
        }
        let diff: i64 = date - self.first_day;
        if diff >= self.day_count as i64 {
            return None;
        }
        Some(diff as usize)
    }

    /// The visible window as a half-open timestamp interval.
    pub fn time_range(&self) -> (r: (i64, i64))
        requires
            self.wf(),
        ensures
            r.0 == self.first_day * (SECS_PER_DAY as int),
            r.1 == (self.first_day + self.day_count) * (SECS_PER_DAY as int),
            ts_valid(r.0) && ts_valid(r.1),
    {
        let start: i64 = self.first_day * SECS_PER_DAY;
        let end: i64 = (self.first_day + self.day_count as i64) * SECS_PER_DAY;
        (start, end)
    }

    /// The visible dates, as day numbers.
    pub fn visible_dates(&self) -> (r: Vec<i64>)
        requires
            self.wf(),
        ensures
            r@.len() == self.day_count,
            forall|q: int| 0 <= q < r@.len() ==> r@[q] == self.first_day + q,
    {
        let mut out: Vec<i64> = Vec::new();
        let mut d: usize = 0;
        while d < self.day_count
            invariant
                self.wf(),
                0 <= d <= self.day_count,
                out@.len() == d,
                forall|q: int| 0 <= q < d ==> out@[q] == self.first_day + q,
            decreases self.day_count - d,
        {
            out.push(self.first_day + d as i64);
            d = d + 1;
        }
        out
    }

    /// Whether the timestamp falls on one of the visible days.
    pub fn is_visible(&self, t: i64) -> (r: bool)
        requires
            self.wf(),
            t >= 0,
        ensures
            r == (self.first_day <= day_of(t as int) < self.first_day + self.day_count),
    {
        let d = crate::util::day_of_ts(t);
        self.first_day <= d && d < self.first_day + self.day_count as i64
    }

    /// Replace the store wholesale after a backend load, clearing the undo
    /// history so no change record refers to a stale snapshot.
    pub fn load_events(&mut self, events: Vec<Event>)
        requires
            old(self).wf(),
            store_wf(events@),
        ensures
            final(self).wf(),
            final(self).events == events,
            final(self).history.changes@.len() == 0,
            *final(self) == (ScheduleUi {
                events: final(self).events,
                history: final(self).history,
                ..*old(self)
            }),
    {
        self.history.clear();
        self.events = events;
    }

    /// Flag the visible window as changed so the application reloads it.
    pub fn mark_scope_updated(&mut self)
        ensures
            *final(self) == (ScheduleUi { scope_updated: true, ..*old(self) }),
    {
        self.scope_updated = true;
    }

    /// Scroll the window sideways by whole days.
    pub fn scroll_horizontally(&mut self, days: i64)
        requires
            old(self).wf(),
            -1000 <= days <= 1000,
            0 <= old(self).first_day + days <= 100_000_000,
        ensures
            final(self).wf(),
            *final(self) == (ScheduleUi {
                first_day: (old(self).first_day + days) as i64,
                scope_updated: true,
                ..*old(self)
            }),
    {
        self.first_day = self.first_day + days;
        self.mark_scope_updated();
    }

    /// After a successful flush: drop the events that storage deleted and
    /// clear every dirty flag.
    pub fn finish_flush(&mut self)
        requires
            old(self).wf(),
        ensures
            final(self).wf(),
            final(self).events@ == flushed_store(old(self).events@),
            *final(self) == (ScheduleUi { events: final(self).events, ..*old(self) }),
    {
        let mut kept: Vec<Event> = Vec::new();
        let mut i: usize = 0;
        proof {
            assert(flushed_store(self.events@.take(0)) =~= Seq::<Event>::empty());
        }
        while i < self.events.len()
            invariant
                store_wf(old(self).events@),
                self.events@ == old(self).events@,
                0 <= i <= self.events@.len(),
                kept@ == flushed_store(old(self).events@.take(i as int)),
                kept@.len() <= i,
                forall|a: int, b: int|
                    0 <= a < b < kept@.len() ==> (#[trigger] kept@[a]).id@ != (
                    #[trigger] kept@[b]).id@,
                forall|a: int|
                    0 <= a < kept@.len() ==> (#[trigger] kept@[a]).wf() && !kept@[a].deleted
                        && !kept@[a].changed,
                forall|a: int|
                    0 <= a < kept@.len() ==> exists|j: int|
                        0 <= j < i && (#[trigger] kept@[a]).id@ == (old(self).events@[j]).id@,
            decreases self.events@.len() - i,
        {
            let ghost prefix = old(self).events@.take(i as int);
            let ghost prefix1 = old(self).events@.take(i as int + 1);
            proof {
                assert(prefix1.drop_last() =~= prefix);
                assert(prefix1.last() == old(self).events@[i as int]);
            }
            if !self.events[i].deleted {
                let mut e = self.events[i].duplicate();
                e.reset_dirty_flags();
                kept.push(e);
                proof {
                    assert(kept@ =~= flushed_store(prefix1));
                    assert forall|a: int| 0 <= a < kept@.len() implies exists|j: int|
                        0 <= j < i + 1 && (#[trigger] kept@[a]).id@ == (old(
                            self,
                        ).events@[j]).id@ by {
                        if a < kept@.len() - 1 {
                            let j = choose|j: int|
                                0 <= j < i && (#[trigger] kept@[a]).id@ == (old(
                                    self,
                                ).events@[j]).id@;
                            assert(0 <= j < i + 1 && kept@[a].id@ == old(self).events@[j].id@);
                        } else {
                            assert(kept@[a].id@ == old(self).events@[i as int].id@);
                        }
                    }
                    assert forall|a: int, b: int| 0 <= a < b < kept@.len() implies (
                    #[trigger] kept@[a]).id@ != (#[trigger] kept@[b]).id@ by {
                        if b == kept@.len() - 1 {
                            let j = choose|j: int|
                                0 <= j < i && (#[trigger] kept@[a]).id@ == (old(
                                    self,
                                ).events@[j]).id@;
                            assert(old(self).events@[j].id@ != old(self).events@[i as int].id@);
                        }
                    }
                }
            } else {
                proof {
                    assert(kept@ =~= flushed_store(prefix1));
                }
            }
            i = i + 1;
        }
        proof {
            assert(old(self).events@.take(old(self).events@.len() as int) =~= old(self).events@);
        }
        self.events = kept;
    }
}

impl ScheduleUi {
    /// One day column of the grid, before margins are applied.
    pub fn day_column(&self, day: usize) -> (r: Rect)
        requires
            self.wf(),
            day < self.day_count,
        ensures
            r.x0 == self.day_width * day,
            r.y0 == 0,
            r.x1 == self.day_width * (day + 1),
            r.y1 == self.spec_content_height(),
            r.bounded(),
            r.x0 <= r.x1 && r.y0 <= r.y1,
    {
        proof {
            assert(0 <= (self.day_width as int) * (day as int) && (self.day_width as int) * (
            day as int) + self.day_width == (self.day_width as int) * (day as int + 1) && (
            self.day_width as int) * (day as int + 1) <= 100_000_000) by (nonlinear_arith)
                requires
                    0 < self.day_width <= 100_000,
                    0 <= (day as int) < self.day_count <= 1000,
            ;
        }
        let h = self.content_height();
        let x0: i64 = self.day_width * (day as i64);
        Rect { x0, y0: 0, x1: x0 + self.day_width, y1: h }
    }

    /// The on-screen rectangle for a day, a vertical extent given in
    /// seconds of the day, and a horizontal span: the span's fractions of
    /// the day column (minus the new-event margin), shifted by the grid
    /// margins.
    pub open spec fn spec_layout_rect(self, day: int, y0s: int, y1s: int, sp: Span) -> Rect {
        let cx = self.day_width * day;
        let w = self.day_width - self.new_event_margin;
        let h = self.spec_content_height();
        Rect {
            x0: (cx + (sp.col * w) / (sp.width as int) + self.time_marker_margin_width) as i64,
            y0: ((y0s * h) / 86400 + self.day_header_margin_height) as i64,
            x1: (cx + ((sp.col + 1) * w) / (sp.width as int) + self.time_marker_margin_width) as i64,
            y1: ((y1s * h) / 86400 + self.day_header_margin_height) as i64,
        }
    }

    /// Compute the on-screen rectangle of one laid-out event block.
    pub fn layout_event(&self, day: usize, y0s: i64, y1s: i64, sp: Span) -> (r: Rect)
        requires
            self.wf(),
            day < self.day_count,
            0 <= y0s <= SECS_PER_DAY,
            0 <= y1s <= SECS_PER_DAY,
            sp.wf(),
            sp.width <= 0x1000_0000,
        ensures
            r == self.spec_layout_rect(day as int, y0s as int, y1s as int, sp),
            r.bounded(),
            r.x0 <= r.x1,
            y0s <= y1s ==> r.y0 <= r.y1,
    {
        let h = self.content_height();
        proof {
            assert(0 <= (self.day_width as int) * (day as int) <= 100_000_000) by (nonlinear_arith)
                requires
                    0 < self.day_width <= 100_000,
                    0 <= (day as int) < self.day_count <= 1000,
            ;
        }
        let cx: i64 = self.day_width * (day as i64);
        let w: i64 = self.day_width - self.new_event_margin;
        proof {
            let c = sp.col as int;
            let wd = sp.width as int;
            let wi = w as int;
            assert(0 <= c * wi && c * wi <= (c + 1) * wi && (c + 1) * wi <= wd * wi && wd * wi
                <= 0x1000_0000 * 100_000) by (nonlinear_arith)
                requires
                    0 <= c,
                    c + 1 <= wd <= 0x1000_0000,
                    0 < wi <= 100_000,
            ;
            lemma_div_pos_is_pos(c * wi, wd);
            lemma_div_is_ordered(c * wi, (c + 1) * wi, wd);
            lemma_div_is_ordered((c + 1) * wi, wd * wi, wd);
            lemma_div_multiples_vanish(wi, wd);
            assert(wd * wi == wi * wd) by (nonlinear_arith);
            assert((wd * wi) / wd == wi);
        }
        let colw: i64 = (sp.col as i64) * w;
        let colw1: i64 = (sp.col as i64 + 1) * w;
        let x0: i64 = cx + colw / (sp.width as i64) + self.time_marker_margin_width;
        let x1: i64 = cx + colw1 / (sp.width as i64) + self.time_marker_margin_width;
        proof {
            let h_ = h as int;
            assert(0 <= (y0s as int) * h_ <= 86400 * 100_000_000 && 0 <= (y1s as int) * h_ <= 86400
                * 100_000_000) by (nonlinear_arith)
                requires
                    0 <= y0s as int <= 86400,
                    0 <= y1s as int <= 86400,
                    0 < h_ <= 100_000_000,
            ;
            lemma_fundamental_div_mod((y0s as int) * h_, 86400);
            lemma_mod_bound((y0s as int) * h_, 86400);
            lemma_fundamental_div_mod((y1s as int) * h_, 86400);
            lemma_mod_bound((y1s as int) * h_, 86400);
            if y0s <= y1s {
                assert((y0s as int) * h_ <= (y1s as int) * h_) by (nonlinear_arith)
                    requires
                        0 <= y0s as int <= y1s as int,
                        0 < h_,
                ;
                lemma_div_is_ordered((y0s as int) * h_, (y1s as int) * h_, 86400);
            }
            assert((y0s as int) * h_ <= 86400 * h_ && (y1s as int) * h_ <= 86400 * h_)
                by (nonlinear_arith)
                requires
                    0 <= y0s as int <= 86400,
                    0 <= y1s as int <= 86400,
                    0 < h_,
            ;
            lemma_div_is_ordered((y0s as int) * h_, 86400 * h_, 86400);
            lemma_div_is_ordered((y1s as int) * h_, 86400 * h_, 86400);
            lemma_div_multiples_vanish(h_, 86400);
            assert(86400 * h_ == h_ * 86400) by (nonlinear_arith);
            assert((86400 * h_) / 86400 == h_);
            lemma_div_pos_is_pos((y0s as int) * h_, 86400);
            lemma_div_pos_is_pos((y1s as int) * h_, 86400);
        }
        let y0: i64 = (((y0s * h) as u64) / 86400u64) as i64 + self.day_header_margin_height;
        let y1: i64 = (((y1s * h) as u64) / 86400u64) as i64 + self.day_header_margin_height;
        Rect { x0, y0, x1, y1 }
    }

    /// The screen rectangle of an event under a layout: nothing when the
    /// layout has no span for it or its day is not visible; otherwise its
    /// day column band between its start and end (the end capped at the
    /// day's midnight).
    pub open spec fn spec_event_rect(self, layout: Layout, event: Event) -> Option<Rect> {
        if !has_span(layout.entries@, event.id@) {
            None
        } else {
            let sp = span_at(layout.entries@, event.id@);
            let date = day_of(event.start as int);
            if !(self.first_day <= date < self.first_day + self.day_count) {
                None
            } else {
                let day = date - self.first_day;
                let y0s = second_of_day(event.start as int);
                let raw = event.end - date * 86400;
                let y1s = if raw < 0 {
                    0int
                } else if raw > 86400 {
                    86400int
                } else {
                    raw
                };
                Some(self.spec_layout_rect(day, y0s, y1s, sp))
            }
        }
    }

    /// Compute the screen rectangle of one event.
    pub fn event_rect(&self, layout: &Layout, event: &Event) -> (r: Option<Rect>)
        requires
            self.wf(),
            event.wf(),
            layout.wf(),
            forall|m: int|
                0 <= m < layout.entries@.len() ==> (#[trigger] layout.entries@[m]).1.width
                    <= 0x1000_0000,
        ensures
            r == self.spec_event_rect(*layout, *event),
            r matches Some(rect) ==> rect.bounded() && rect.x0 <= rect.x1,
            r matches Some(rect) ==> (event.start <= event.end ==> rect.y0 <= rect.y1),
    {
        proof {
            crate::layout::lemma_find_span(layout.entries@, event.id@);
        }
        let sp = match layout.query(&event.id) {
            Some(sp) => sp,
            None => {
                return None;
            },
        };
        let date: i64 = crate::util::day_of_ts(event.start);
        if !(self.first_day <= date && date < self.first_day + self.day_count as i64) {
            return None;
        }
        let day: usize = (date - self.first_day) as usize;
        let y0s: i64 = crate::util::second_of_day_ts(event.start);
        let raw: i64 = event.end - date * SECS_PER_DAY;
        let y1s: i64 = if raw < 0 {
            0
        } else if raw > 86400 {
            86400
        } else {
            raw
        };
        proof {
            lemma_fundamental_div_mod(event.start as int, 86400);
            lemma_mod_bound(event.start as int, 86400);
            if event.start <= event.end {
                assert(y0s <= y1s);
            }
        }
        Some(self.layout_event(day, y0s, y1s, sp))
    }

    /// The two resize handles of an event rectangle: thin bands at the top
    /// and the bottom, inset from the corners. When the bands would meet,
    /// only the lower one is kept (the upper one collapses to zero height).
    pub open spec fn spec_resizer_regions(self, rect: Rect) -> (Rect, Rect) {
        let width = rect.x1 - rect.x0;
        let corner = if width > 4 * self.resizer_width_margin {
            self.resizer_width_margin as int
        } else {
            width / 4
        };
        let upper = Rect {
            x0: (rect.x0 + corner) as i64,
            y0: rect.y0,
            x1: (rect.x1 - corner) as i64,
            y1: (rect.y0 + self.resizer_height) as i64,
        };
        let lower = Rect {
            x0: (rect.x0 + corner) as i64,
            y0: (rect.y1 - self.resizer_height) as i64,
            x1: (rect.x1 - corner) as i64,
            y1: rect.y1,
        };
        if upper.spec_intersects(lower) {
            (Rect { y1: upper.y0, ..upper }, lower)
        } else {
            (upper, lower)
        }
    }

    /// Compute the resize handles of an event rectangle.
    pub fn event_resizer_regions(&self, rect: Rect) -> (r: (Rect, Rect))
        requires
            self.wf(),
            rect.bounded(),
            rect.x0 <= rect.x1,
            rect.y0 <= rect.y1,
        ensures
            r == self.spec_resizer_regions(rect),
    {
        let width: i64 = rect.x1 - rect.x0;
        let corner: i64 = if width > 4 * self.resizer_width_margin {
            self.resizer_width_margin
        } else {
            proof {
                lemma_fundamental_div_mod(width as int, 4);
                lemma_mod_bound(width as int, 4);
            }
            ((width as u64) / 4u64) as i64
        };
        let upper = Rect {
            x0: rect.x0 + corner,
            y0: rect.y0,
            x1: rect.x1 - corner,
            y1: rect.y0 + self.resizer_height,
        };
        let lower = Rect {
            x0: rect.x0 + corner,
            y0: rect.y1 - self.resizer_height,
            x1: rect.x1 - corner,
            y1: rect.y1,
        };
        if upper.intersects(&lower) {
            (Rect { y1: upper.y0, ..upper }, lower)
        } else {
            (upper, lower)
        }
    }

    /// The widget size the engine asks the toolkit for: the grid plus its
    /// margins, a small band for the last time mark, and the toolkit's own
    /// clip margin.
    pub fn desired_size(&self, clip_margin: i64) -> (r: (i64, i64))
        requires
            self.wf(),
            0 <= clip_margin <= 100_000,
        ensures
            r.0 == self.time_marker_margin_width + self.spec_content_width() + clip_margin,
            r.1 == self.day_header_margin_height + self.spec_content_height() + 10 + clip_margin,
    {
        let w = self.content_width();
        let h = self.content_height();
        (
            self.time_marker_margin_width + w + clip_margin,
            self.day_header_margin_height + h + 10 + clip_margin,
        )
    }

    /// The vertical scroll offset that brings the timestamp into view: its
    /// day fraction scaled to the grid height, below the day headers.
    pub fn scroll_position(&self, t: i64) -> (y: i64)
        requires
            self.wf(),
            ts_valid(t),
        ensures
            y as int == (second_of_day(t as int) * self.spec_content_height()) / 86400
                + self.day_header_margin_height,
            0 <= y <= PX_MAX,
    {
        let h = self.content_height();
        let sec = crate::util::second_of_day_ts(t);
        proof {
            let h_ = h as int;
            assert(0 <= (sec as int) * h_ <= 86400 * 100_000_000) by (nonlinear_arith)
                requires
                    0 <= sec as int <= 86400,
                    0 < h_ <= 100_000_000,
            ;
            lemma_fundamental_div_mod((sec as int) * h_, 86400);
            lemma_mod_bound((sec as int) * h_, 86400);
        }
        (((sec * h) as u64) / 86400u64) as i64 + self.day_header_margin_height
    }

    /// The timestamp of one horizontal time mark: the given day's midnight
    /// plus the segment's share of the day (the last mark is the next
    /// midnight).
    pub fn time_marker_time(&self, segment: usize, day: usize) -> (r: Option<i64>)
        requires
            self.wf(),
            day < self.day_count,
        ensures
            segment > self.segment_count ==> r is None,
            segment <= self.segment_count ==> ({
                let seconds = (86400usize / self.segment_count) * segment;
                if seconds >= 86400 {
                    r == Some(((self.first_day + day + 1) * 86400) as i64)
                } else {
                    r == Some(((self.first_day + day) * 86400 + seconds) as i64)
                }
            }),
            r matches Some(t) ==> ts_valid(t),
    {
        if segment > self.segment_count {
            return None;
        }
        proof {
            let sc = self.segment_count as int;
            let seg = segment as int;
            lemma_div_pos_is_pos(86400int, sc);
            assert(86400int <= 86400 * sc) by (nonlinear_arith)
                requires
                    1 <= sc,
            ;
            lemma_div_is_ordered(86400int, 86400 * sc, sc);
            assert(86400 * sc == sc * 86400) by (nonlinear_arith);
            lemma_div_multiples_vanish(86400int, sc);
            assert(0 <= (86400int / sc) * seg <= 86400 * 1000) by (nonlinear_arith)
                requires
                    0 <= 86400int / sc <= 86400,
                    0 <= seg <= 1000,
            ;
        }
        let seconds: usize = (86400usize / self.segment_count) * segment;
        let base: i64 = self.first_day + day as i64;
        if seconds >= 86400 {
            Some((base + 1) * SECS_PER_DAY)
        } else {
            Some(base * SECS_PER_DAY + seconds as i64)
        }
    }

    /// Regularize the store before a frame: mark title-less events deleted
    /// and widen every under-minimum event to the minimum duration (by
    /// pushing its end out, as far as the day boundary allows).
    pub fn regularize_events(&mut self, now: i64)
        requires
            old(self).wf(),
            ts_valid(now),
        ensures
            final(self).wf(),
            final(self).events@.len() == old(self).events@.len(),
            forall|i: int|
                0 <= i < old(self).events@.len() ==> (#[trigger] final(self).events@[i])
                    == regularized_one(old(self).events@[i], old(self).min_event_duration, now),
            *final(self) == (ScheduleUi { events: final(self).events, ..*old(self) }),
    {
        crate::mutation::remove_empty_events(&mut self.events, now);
        let min = self.min_event_duration;
        let mut i: usize = 0;
        while i < self.events.len()
            invariant
                ts_valid(now),
                0 < min <= SECS_PER_DAY,
                min == old(self).min_event_duration,
                self.events@.len() == old(self).events@.len(),
                0 <= i <= self.events@.len(),
                forall|j: int|
                    0 <= j < i ==> (#[trigger] self.events@[j]) == regularized_one(
                        old(self).events@[j],
                        min,
                        now,
                    ),
                forall|j: int|
                    i <= j < self.events@.len() ==> (#[trigger] self.events@[j]) == marked_if_empty(
                        old(self).events@[j],
                        now,
                    ),
                forall|j: int| 0 <= j < old(self).events@.len() ==> (#[trigger] old(
                    self,
                ).events@[j]).wf(),
                *self == (ScheduleUi { events: self.events, ..*old(self) }),
            decreases self.events@.len() - i,
        {
            let dur: i64 = self.events[i].end - self.events[i].start;
            if dur < min {
                let mut e = self.events[i].duplicate();
                let target: i64 = e.end + min;
                crate::mutation::move_event_end(&mut e, target, min, now);
                self.events.set(i, e);
            }
            i = i + 1;
        }
        proof {
            assert forall|a: int, b: int|
                0 <= a < b < self.events@.len() implies (#[trigger] self.events@[a]).id@ != (
            #[trigger] self.events@[b]).id@ by {
                assert(self.events@[a].id == old(self).events@[a].id);
                assert(self.events@[b].id == old(self).events@[b].id);
            }
            assert forall|a: int| 0 <= a < self.events@.len() implies (
            #[trigger] self.events@[a]).wf() by {
                assert(self.events@[a] == regularized_one(old(self).events@[a], min, now));
                assert(old(self).events@[a].wf());
            }
        }
    }
}

/// The interval the layout engine sees for an event: its own, except that
/// an event shorter than the minimum duration is widened to it first, so
/// it always occupies visible space.
pub open spec fn widened_ev(e: Event, min: i64) -> Ev {
    Ev {
        id: e.id,
        start: e.start,
        end: if e.end - e.start < min {
            (e.start + min) as i64
        } else {
            e.end
        },
    }
}

/// The event is live and starts on the given date.
pub open spec fn on_day(e: Event, date: int) -> bool {
    !e.deleted && day_of(e.start as int) == date
}

/// No two of the combined events share an id.
pub open spec fn unique_combined_ids(s: Seq<CombinedEvent>) -> bool {
    forall|i: int, j: int|
        0 <= i < j < s.len() ==> (#[trigger] s[i]).spec_event().id@ != (
        #[trigger] s[j]).spec_event().id@
}

/// `v` is the widened interval of one of the first `upto` combined events
/// that lie on `date`.
pub open spec fn day_ev_from(
    combined: Seq<CombinedEvent>,
    upto: int,
    date: int,
    min: i64,
    v: Ev,
) -> bool {
    exists|i: int|
        0 <= i < upto && on_day((#[trigger] combined[i]).spec_event(), date) && v == widened_ev(
            combined[i].spec_event(),
            min,
        )
}

/// `v` appears among the gathered day events.
pub open spec fn day_ev_present(evs: Seq<Ev>, v: Ev) -> bool {
    exists|m: int| 0 <= m < evs.len() && (#[trigger] evs[m]) == v
}

/// Every live event whose start lies on one of the first `dmax` visible
/// days has a span.
pub open spec fn day_layout_covers(
    s: ScheduleUi,
    combined: Seq<CombinedEvent>,
    dmax: int,
    entries: Seq<(EventId, Span)>,
) -> bool {
    forall|i: int|
        0 <= i < combined.len() && !(#[trigger] combined[i]).spec_event().deleted && s.first_day
            <= day_of(combined[i].spec_event().start as int) < s.first_day + dmax ==> has_span(
            entries,
            combined[i].spec_event().id@,
        )
}

/// The id belongs to a live event starting on one of the first `dmax`
/// visible days.
pub open spec fn entry_in_window(
    s: ScheduleUi,
    combined: Seq<CombinedEvent>,
    dmax: int,
    id: Seq<char>,
) -> bool {
    exists|i: int|
        0 <= i < combined.len() && s.first_day <= day_of(
            (#[trigger] combined[i]).spec_event().start as int,
        ) < s.first_day + dmax && !combined[i].spec_event().deleted && id == combined[
            i
        ].spec_event().id@
}

/// Every span entry belongs to a live event starting on one of the first
/// `dmax` visible days.
pub open spec fn entries_from_window(
    s: ScheduleUi,
    combined: Seq<CombinedEvent>,
    dmax: int,
    entries: Seq<(EventId, Span)>,
) -> bool {
    forall|m: int|
        0 <= m < entries.len() ==> entry_in_window(s, combined, dmax, (#[trigger] entries[m]).0@)
}

/// The engine-level non-overlap guarantee: two distinct live events that
/// start on the same visible day (among the first `dmax`) and overlap in
/// widened time never receive overlapping spans, and their spans share one
/// group width.
pub open spec fn day_layout_ok(
    s: ScheduleUi,
    combined: Seq<CombinedEvent>,
    dmax: int,
    entries: Seq<(EventId, Span)>,
) -> bool {
    forall|i: int, j: int|
        #![trigger combined[i], combined[j]]
        ({
            let ei = combined[i].spec_event();
            let ej = combined[j].spec_event();
            (0 <= i < combined.len() && 0 <= j < combined.len() && !ei.deleted && !ej.deleted
                && ei.id@ != ej.id@ && day_of(ei.start as int) == day_of(ej.start as int)
                && s.first_day <= day_of(ei.start as int) < s.first_day + dmax && overlaps_spec(
                widened_ev(ei, s.min_event_duration),
                widened_ev(ej, s.min_event_duration),
            ) && has_span(entries, ei.id@) && has_span(entries, ej.id@)) ==> !span_overlap(
                span_at(entries, ei.id@),
                span_at(entries, ej.id@),
            ) && span_at(entries, ei.id@).width == span_at(entries, ej.id@).width
        })
}

impl ScheduleUi {
    /// Gather one day's layout input: the live events starting on `date`,
    /// widened to the minimum duration.
    fn day_events(&self, combined: &Vec<CombinedEvent>, date: i64) -> (evs: Vec<Ev>)
        requires
            self.wf(),
            forall|i: int|
                0 <= i < combined@.len() ==> (#[trigger] combined@[i]).spec_event().wf(),
            unique_combined_ids(combined@),
            combined@.len() < 0x1000_0000,
        ensures
            crate::layout::ev_intervals_wf(evs@),
            crate::layout::unique_ev_ids(evs@),
            evs@.len() <= combined@.len(),
            forall|m: int|
                0 <= m < evs@.len() ==> day_ev_from(
                    combined@,
                    combined@.len() as int,
                    date as int,
                    self.min_event_duration,
                    #[trigger] evs@[m],
                ),
            forall|i: int|
                0 <= i < combined@.len() && on_day(
                    (#[trigger] combined@[i]).spec_event(),
                    date as int,
                ) ==> day_ev_present(
                    evs@,
                    widened_ev(combined@[i].spec_event(), self.min_event_duration),
                ),
    {
        let min = self.min_event_duration;
        let mut evs: Vec<Ev> = Vec::new();
        let mut i: usize = 0;
        while i < combined.len()
            invariant
                self.wf(),
                min == self.min_event_duration,
                forall|k: int|
                    0 <= k < combined@.len() ==> (#[trigger] combined@[k]).spec_event().wf(),
                unique_combined_ids(combined@),
                combined@.len() < 0x1000_0000,
                0 <= i <= combined@.len(),
                evs@.len() <= i,
                crate::layout::ev_intervals_wf(evs@),
                crate::layout::unique_ev_ids(evs@),
                forall|m: int|
                    0 <= m < evs@.len() ==> day_ev_from(
                        combined@,
                        i as int,
                        date as int,
                        min,
                        #[trigger] evs@[m],
                    ),
                forall|k: int|
                    0 <= k < i && on_day((#[trigger] combined@[k]).spec_event(), date as int)
                        ==> day_ev_present(evs@, widened_ev(combined@[k].spec_event(), min)),
            decreases combined@.len() - i,
        {
            let ghost prev = evs@;
            let e = combined[i].event();
            let matches_day = !e.deleted && crate::util::day_of_ts(e.start) == date;
            if matches_day {
                let wend: i64 = if e.end - e.start < min {
                    e.start + min
                } else {
                    e.end
                };
                let nv = Ev::new(e.id.clone(), e.start, wend);
                proof {
                    assert(nv == widened_ev(combined@[i as int].spec_event(), min));
                }
                evs.push(nv);
                proof {
                    let last = evs@.len() - 1;
                    assert(evs@[last] == nv);
                    // the new interval runs forward
                    assert(nv.start < nv.end);
                    // the new id is fresh among the gathered ones
                    assert forall|a: int, b: int|
                        0 <= a < b < evs@.len() implies (#[trigger] evs@[a]).id@ != (
                    #[trigger] evs@[b]).id@ by {
                        if b == last {
                            assert(day_ev_from(combined@, i as int, date as int, min, prev[a]));
                            let src = choose|s2: int|
                                0 <= s2 < i as int && on_day(
                                    (#[trigger] combined@[s2]).spec_event(),
                                    date as int,
                                ) && prev[a] == widened_ev(combined@[s2].spec_event(), min);
                            assert(evs@[a] == prev[a]);
                            assert(combined@[src].spec_event().id@ != combined@[i as int].spec_event().id@);
                        } else {
                            assert(evs@[a] == prev[a] && evs@[b] == prev[b]);
                        }
                    }
                    // bookkeeping for the two quantified ensures
                    assert forall|m: int| 0 <= m < evs@.len() implies day_ev_from(
                        combined@,
                        i as int + 1,
                        date as int,
                        min,
                        #[trigger] evs@[m],
                    ) by {
                        if m < last {
                            assert(evs@[m] == prev[m]);
                            assert(day_ev_from(combined@, i as int, date as int, min, prev[m]));
                            let src = choose|s2: int|
                                0 <= s2 < i as int && on_day(
                                    (#[trigger] combined@[s2]).spec_event(),
                                    date as int,
                                ) && prev[m] == widened_ev(combined@[s2].spec_event(), min);
                            assert(0 <= src < i as int + 1 && on_day(
                                combined@[src].spec_event(),
                                date as int,
                            ) && evs@[m] == widened_ev(combined@[src].spec_event(), min));
                        } else {
                            assert(on_day(combined@[i as int].spec_event(), date as int));
                        }
                    }
                    assert forall|k: int|
                        0 <= k < i as int + 1 && on_day(
                            (#[trigger] combined@[k]).spec_event(),
                            date as int,
                        ) implies day_ev_present(
                        evs@,
                        widened_ev(combined@[k].spec_event(), min),
                    ) by {
                        if k < i as int {
                            assert(day_ev_present(prev, widened_ev(combined@[k].spec_event(), min)));
                            let m = choose|m: int|
                                0 <= m < prev.len() && (#[trigger] prev[m]) == widened_ev(
                                    combined@[k].spec_event(),
                                    min,
                                );
                            assert(evs@[m] == prev[m]);
                        } else {
                            assert(evs@[last] == widened_ev(combined@[k].spec_event(), min));
                        }
                    }
                }
            } else {
                proof {
                    assert forall|m: int| 0 <= m < evs@.len() implies day_ev_from(
                        combined@,
                        i as int + 1,
                        date as int,
                        min,
                        #[trigger] evs@[m],
                    ) by {
                        assert(day_ev_from(combined@, i as int, date as int, min, evs@[m]));
                        let src = choose|s2: int|
                            0 <= s2 < i as int && on_day(
                                (#[trigger] combined@[s2]).spec_event(),
                                date as int,
                            ) && evs@[m] == widened_ev(combined@[s2].spec_event(), min);
                        assert(0 <= src < i as int + 1 && on_day(
                            combined@[src].spec_event(),
                            date as int,
                        ) && evs@[m] == widened_ev(combined@[src].spec_event(), min));
                    }
                    assert forall|k: int|
                        0 <= k < i as int + 1 && on_day(
                            (#[trigger] combined@[k]).spec_event(),
                            date as int,
                        ) implies day_ev_present(
                        evs@,
                        widened_ev(combined@[k].spec_event(), min),
                    ) by {
                        assert(k != i as int);
                    }
                }
            }
            i = i + 1;
        }
        evs
    }

    /// Lay out every visible day of the combined events: each day's live
    /// events are packed by the column algorithm and the days' assignments
    /// are folded into one layout. The result covers every live event on a
    /// visible day, and events of one day that overlap in (widened) time
    /// never receive overlapping spans.
    #[verifier::rlimit(60)]
    pub fn layout_events(&self, combined: &Vec<CombinedEvent>) -> (layout: Layout)
        requires
            self.wf(),
            forall|i: int|
                0 <= i < combined@.len() ==> (#[trigger] combined@[i]).spec_event().wf(),
            unique_combined_ids(combined@),
            combined@.len() < 0x1000_0000,
        ensures
            layout.wf(),
            forall|m: int|
                0 <= m < layout.entries@.len() ==> (#[trigger] layout.entries@[m]).1.width
                    <= 0x1000_0000,
            day_layout_covers(*self, combined@, self.day_count as int, layout.entries@),
            day_layout_ok(*self, combined@, self.day_count as int, layout.entries@),
            entries_from_window(*self, combined@, self.day_count as int, layout.entries@),
    {
        let mut layout = Layout::new();
        let mut d: usize = 0;
        while d < self.day_count
            invariant
                self.wf(),
                forall|k: int|
                    0 <= k < combined@.len() ==> (#[trigger] combined@[k]).spec_event().wf(),
                unique_combined_ids(combined@),
                combined@.len() < 0x1000_0000,
                0 <= d <= self.day_count,
                layout.wf(),
                forall|m: int|
                    0 <= m < layout.entries@.len() ==> (#[trigger] layout.entries@[m]).1.width
                        <= 0x1000_0000,
                day_layout_covers(*self, combined@, d as int, layout.entries@),
                day_layout_ok(*self, combined@, d as int, layout.entries@),
                entries_from_window(*self, combined@, d as int, layout.entries@),
            decreases self.day_count - d,
        {
            let date: i64 = self.first_day + d as i64;
            let evs = self.day_events(combined, date);
            let day_layout = crate::layout::MarkusAlgorithm::compute(evs);
            let ghost a = layout.entries@;
            let ghost b = day_layout.entries@;
            let ghost evsg = evs@;
            let ghost min = self.min_event_duration;
            proof {
                // the day's entry ids come from events on this date, so
                // they are disjoint from everything already merged
                assert forall|m1: int, m2: int|
                    0 <= m1 < a.len() && 0 <= m2 < b.len() implies (#[trigger] a[m1]).0@ != (
                #[trigger] b[m2]).0@ by {
                    assert(entry_in_window(*self, combined@, d as int, a[m1].0@));
                    let i1 = choose|i: int|
                        0 <= i < combined@.len() && self.first_day <= day_of(
                            (#[trigger] combined@[i]).spec_event().start as int,
                        ) < self.first_day + (d as int) && !combined@[i].spec_event().deleted
                            && a[m1].0@ == combined@[i].spec_event().id@;
                    assert(crate::layout::entry_id_known(evsg, b, m2));
                    let k2 = choose|k: int|
                        0 <= k < evsg.len() && b[m2].0@ == (#[trigger] evsg[k]).id@;
                    assert(day_ev_from(combined@, combined@.len() as int, date as int, min, evsg[k2]));
                    let i2 = choose|i: int|
                        0 <= i < combined@.len() && on_day(
                            (#[trigger] combined@[i]).spec_event(),
                            date as int,
                        ) && evsg[k2] == widened_ev(combined@[i].spec_event(), min);
                    if a[m1].0@ == b[m2].0@ {
                        assert(combined@[i1].spec_event().id@ == combined@[i2].spec_event().id@);
                        if i1 < i2 {
                            assert(combined@[i1].spec_event().id@ != combined@[i2].spec_event().id@);
                        } else if i2 < i1 {
                            assert(combined@[i2].spec_event().id@ != combined@[i1].spec_event().id@);
                        }
                        assert(i1 == i2);
                        assert(day_of(combined@[i1].spec_event().start as int) < date as int);
                    }
                }
            }
            layout.merge(day_layout);
            proof {
                let c = layout.entries@;
                assert(c == a + b);
                // lookups through the merged list
                assert forall|id: Seq<char>| true implies {
                    &&& #[trigger] has_span(c, id) == (has_span(a, id) || has_span(b, id))
                    &&& has_span(a, id) ==> span_at(c, id) == span_at(a, id)
                    &&& !has_span(a, id) && has_span(b, id) ==> span_at(c, id) == span_at(b, id)
                } by {
                    crate::layout::lemma_find_span_append(a, b, id);
                }
                // width bound for the merged entries
                assert forall|m: int| 0 <= m < c.len() implies (#[trigger] c[m]).1.width
                    <= 0x1000_0000 by {
                    if m < a.len() {
                        assert(c[m] == a[m]);
                    } else {
                        assert(c[m] == b[m - a.len()]);
                    }
                }
                // provenance of the merged entries
                assert forall|m: int| 0 <= m < c.len() implies entry_in_window(
                    *self,
                    combined@,
                    d as int + 1,
                    (#[trigger] c[m]).0@,
                ) by {
                    if m < a.len() {
                        assert(c[m] == a[m]);
                        assert(entry_in_window(*self, combined@, d as int, a[m].0@));
                        let i1 = choose|i: int|
                            0 <= i < combined@.len() && self.first_day <= day_of(
                                (#[trigger] combined@[i]).spec_event().start as int,
                            ) < self.first_day + (d as int) && !combined@[i].spec_event().deleted
                                && a[m].0@ == combined@[i].spec_event().id@;
                        assert(self.first_day <= day_of(combined@[i1].spec_event().start as int)
                            < self.first_day + (d as int + 1) && !combined@[
                            i1
                        ].spec_event().deleted && c[m].0@ == combined@[i1].spec_event().id@);
                    } else {
                        assert(c[m] == b[m - a.len()]);
                        assert(crate::layout::entry_id_known(evsg, b, m - a.len()));
                        let k2 = choose|k: int|
                            0 <= k < evsg.len() && b[m - a.len()].0@ == (#[trigger] evsg[k]).id@;
                        assert(day_ev_from(
                            combined@,
                            combined@.len() as int,
                            date as int,
                            min,
                            evsg[k2],
                        ));
                        let i2 = choose|i: int|
                            0 <= i < combined@.len() && on_day(
                                (#[trigger] combined@[i]).spec_event(),
                                date as int,
                            ) && evsg[k2] == widened_ev(combined@[i].spec_event(), min);
                        assert(self.first_day <= day_of(combined@[i2].spec_event().start as int)
                            < self.first_day + (d as int + 1) && !combined@[
                        i2].spec_event().deleted && c[m].0@ == combined@[i2].spec_event().id@);
                    }
                }
                // coverage for this day's events
                assert forall|i: int|
                    0 <= i < combined@.len() && !(#[trigger] combined@[i]).spec_event().deleted
                        && self.first_day <= day_of(combined@[i].spec_event().start as int)
                        < self.first_day + (d + 1) implies has_span(
                    c,
                    combined@[i].spec_event().id@,
                ) by {
                    let ei = combined@[i].spec_event();
                    if day_of(ei.start as int) < self.first_day + d {
                        assert(has_span(a, ei.id@));
                    } else {
                        assert(on_day(ei, date as int));
                        assert(day_ev_present(evsg, widened_ev(ei, min)));
                        let m = choose|m: int|
                            0 <= m < evsg.len() && (#[trigger] evsg[m]) == widened_ev(ei, min);
                        assert(has_span(b, evsg[m].id@));
                        assert(evsg[m].id@ == ei.id@);
                    }
                }
                // the non-overlap guarantee for this day's pairs
                assert forall|i: int, j: int|
                    ({
                        let ei = (#[trigger] combined@[i]).spec_event();
                        let ej = (#[trigger] combined@[j]).spec_event();
                        0 <= i < combined@.len() && 0 <= j < combined@.len() && !ei.deleted
                            && !ej.deleted && ei.id@ != ej.id@ && day_of(ei.start as int) == day_of(
                            ej.start as int,
                        ) && self.first_day <= day_of(ei.start as int) < self.first_day + (d + 1)
                            && overlaps_spec(widened_ev(ei, min), widened_ev(ej, min)) && has_span(
                            c,
                            ei.id@,
                        ) && has_span(c, ej.id@)
                    }) implies !span_overlap(
                    span_at(c, combined@[i].spec_event().id@),
                    span_at(c, combined@[j].spec_event().id@),
                ) && span_at(c, combined@[i].spec_event().id@).width == span_at(
                    c,
                    combined@[j].spec_event().id@,
                ).width by {
                    let ei = combined@[i].spec_event();
                    let ej = combined@[j].spec_event();
                    if day_of(ei.start as int) < self.first_day + d {
                        assert(has_span(a, ei.id@) && has_span(a, ej.id@)) by {
                            assert(day_layout_covers(*self, combined@, d as int, a));
                        }
                        assert(!span_overlap(span_at(a, ei.id@), span_at(a, ej.id@)));
                        assert(span_at(a, ei.id@).width == span_at(a, ej.id@).width);
                    } else {
                        // both events lie on this day
                        assert(on_day(ei, date as int) && on_day(ej, date as int));
                        assert(day_ev_present(evsg, widened_ev(ei, min)));
                        assert(day_ev_present(evsg, widened_ev(ej, min)));
                        let mi = choose|m: int|
                            0 <= m < evsg.len() && (#[trigger] evsg[m]) == widened_ev(ei, min);
                        let mj = choose|m: int|
                            0 <= m < evsg.len() && (#[trigger] evsg[m]) == widened_ev(ej, min);
                        assert(evsg[mi].id@ == ei.id@ && evsg[mj].id@ == ej.id@);
                        assert(has_span(b, evsg[mi].id@) && has_span(b, evsg[mj].id@));
                        assert(overlaps_spec(evsg[mi], evsg[mj]));
                        assert(!span_overlap(span_at(b, evsg[mi].id@), span_at(b, evsg[mj].id@)));
                        assert(span_at(b, evsg[mi].id@).width == span_at(b, evsg[mj].id@).width);
                        // earlier days never hold this day's ids
                        assert(!has_span(a, ei.id@)) by {
                            if has_span(a, ei.id@) {
                                crate::layout::lemma_find_span(a, ei.id@);
                                let m = find_span(a, ei.id@);
                                assert(entry_in_window(*self, combined@, d as int, a[m].0@));
                                let i1 = choose|i2: int|
                                    0 <= i2 < combined@.len() && self.first_day <= day_of(
                                        (#[trigger] combined@[i2]).spec_event().start as int,
                                    ) < self.first_day + (d as int) && !combined@[
                                        i2
                                    ].spec_event().deleted && a[m].0@ == combined@[
                                        i2
                                    ].spec_event().id@;
                                if i1 < i {
                                    assert(combined@[i1].spec_event().id@ != ei.id@);
                                } else if i < i1 {
                                    assert(ei.id@ != combined@[i1].spec_event().id@);
                                }
                            }
                        }
                        assert(!has_span(a, ej.id@)) by {
                            if has_span(a, ej.id@) {
                                crate::layout::lemma_find_span(a, ej.id@);
                                let m = find_span(a, ej.id@);
                                assert(entry_in_window(*self, combined@, d as int, a[m].0@));
                                let i1 = choose|i2: int|
                                    0 <= i2 < combined@.len() && self.first_day <= day_of(
                                        (#[trigger] combined@[i2]).spec_event().start as int,
                                    ) < self.first_day + (d as int) && !combined@[
                                        i2
                                    ].spec_event().deleted && a[m].0@ == combined@[
                                        i2
                                    ].spec_event().id@;
                                if i1 < j {
                                    assert(combined@[i1].spec_event().id@ != ej.id@);
                                } else if j < i1 {
                                    assert(ej.id@ != combined@[i1].spec_event().id@);
                                }
                            }
                        }
                        assert(span_at(c, ei.id@) == span_at(b, ei.id@));
                        assert(span_at(c, ej.id@) == span_at(b, ej.id@));
                    }
                }
            }
            d = d + 1;
        }
        layout
    }
}

/// An event after the empty-title pass of [`ScheduleUi::regularize_events`].
pub open spec fn marked_if_empty(e: Event, now: i64) -> Event {
    if e.title@.len() == 0 {
        e.spec_marked_deleted(now)
    } else {
        e
    }
}

/// An event after [`ScheduleUi::regularize_events`]: marked deleted when
/// titleless, then widened to the minimum duration when shorter.
pub open spec fn regularized_one(e: Event, min: i64, now: i64) -> Event {
    let e1 = marked_if_empty(e, now);
    if e1.end - e1.start < min {
        crate::mutation::move_end_result(e1, (e1.end + min) as i64, min, now)
    } else {
        e1
    }
}

/// The store after a successful flush: deleted events dropped, dirty flags
/// cleared, order kept.
pub open spec fn flushed_store(s: Seq<Event>) -> Seq<Event>
    decreases s.len(),
{
    if s.len() == 0 {
        Seq::empty()
    } else if s.last().deleted {
        flushed_store(s.drop_last())
    } else {
        flushed_store(s.drop_last()).push(
            Event { changed: false, deleted: false, ..s.last() },
        )
    }
}

} // verus!

verus! {

impl ScheduleUi {
    /// Mutable access to the event store for the application's flush loop.
    pub fn events_mut(&mut self) -> &mut Vec<Event> {
        &mut self.events
    }

    /// Refresh the engine's notion of the current time from the wall
    /// clock, shifted into the display timezone.
    pub fn update_current_time(&mut self)
        requires
            old(self).wf(),
        ensures
            final(self).wf(),
            final(self).current_time matches Some(t) && ts_valid(t),
            *final(self) == (ScheduleUi { current_time: final(self).current_time, ..*old(self) }),
    {
        self.current_time = Some(crate::trusted::now_in_offset(self.timezone_offset));
    }

    /// The vertical scroll offset that brings the current wall-clock time
    /// into view.
    pub fn scroll_position_for_now(&self) -> (y: i64)
        requires
            self.wf(),
        ensures
            0 <= y <= PX_MAX,
    {
        let now = crate::trusted::now_in_offset(self.timezone_offset);
        self.scroll_position(now)
    }

    /// Refit the visible window into the given widget width: pick the day
    /// count halfway between what the widest and the narrowest acceptable
    /// columns would allow (clamped into the engine's working range), then
    /// give each day an equal share of the space, never narrower than the
    /// minimum column.
    pub fn refit_into_ui(&mut self, avail_width: i64, clip_margin: i64)
        requires
            old(self).wf(),
            0 <= avail_width <= 100_000_000,
            0 <= clip_margin <= 100_000,
        ensures
            final(self).wf(),
            ({
                let ds0 = avail_width - old(self).time_marker_margin_width - clip_margin;
                let ds: int = if ds0 >= 0 {
                    ds0 as int
                } else {
                    0
                };
                let cmin = ds / (old(self).day_max_width as int);
                let cmax = ds / (old(self).day_min_width as int);
                let optimal = (cmin + cmax + 1) / 2;
                let dc: int = if optimal < 1 {
                    1
                } else if optimal > 1000 {
                    1000
                } else {
                    optimal
                };
                let dw0 = ds / dc;
                let dw: int = if dw0 < old(self).day_min_width {
                    old(self).day_min_width as int
                } else if dw0 > 100_000 {
                    100_000
                } else {
                    dw0
                };
                &&& final(self).day_count == dc
                &&& final(self).day_width == dw
                &&& final(self).scope_updated
                &&& *final(self) == (ScheduleUi {
                    day_count: final(self).day_count,
                    day_width: final(self).day_width,
                    scope_updated: true,
                    ..*old(self)
                })
            }),
    {
        let ds0: i64 = avail_width - self.time_marker_margin_width - clip_margin;
        let ds: i64 = if ds0 >= 0 {
            ds0
        } else {
            0
        };
        let cmin: i64 = ((ds as u64) / (self.day_max_width as u64)) as i64;
        let cmax: i64 = ((ds as u64) / (self.day_min_width as u64)) as i64;
        proof {
            lemma_div_pos_is_pos(ds as int, self.day_max_width as int);
            lemma_div_pos_is_pos(ds as int, self.day_min_width as int);
            lemma_div_is_ordered(ds as int, 100_000_000, self.day_max_width as int);
            lemma_div_is_ordered(ds as int, 100_000_000, self.day_min_width as int);
            lemma_div_is_ordered_by_denominator(100_000_000, 1, self.day_max_width as int);
            lemma_div_is_ordered_by_denominator(100_000_000, 1, self.day_min_width as int);
        }
        let optimal: i64 = (cmin + cmax + 1) / 2;
        let dc: i64 = if optimal < 1 {
            1
        } else if optimal > 1000 {
            1000
        } else {
            optimal
        };
        proof {
            lemma_fundamental_div_mod(cmin + cmax + 1, 2);
            lemma_mod_bound(cmin + cmax + 1, 2);
            lemma_div_pos_is_pos(ds as int, dc as int);
            lemma_div_is_ordered(ds as int, 100_000_000, dc as int);
            lemma_div_is_ordered_by_denominator(100_000_000, 1, dc as int);
        }
        let dw0: i64 = ((ds as u64) / (dc as u64)) as i64;
        let dw: i64 = if dw0 < self.day_min_width {
            self.day_min_width
        } else if dw0 > 100_000 {
            100_000
        } else {
            dw0
        };
        self.day_count = dc as usize;
        self.day_width = dw;
        self.mark_scope_updated();
    }
}

} // verus!
