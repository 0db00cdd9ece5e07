//! The interaction state machine: per-gesture states driving the mutation
//! of a working copy of the touched event, the commit/discard protocol, and
//! undo. The transient gesture state lives in an explicit
//! [`InteractionContext`] owned by the engine's caller.

use vstd::prelude::*;

use std::sync::Arc;

use crate::classifier::{classify, detect_interaction, Interaction, PointerFrame};
use crate::event::{Event, EventId};
use crate::geom::{Pos, Rect};
use crate::history::{apply_spec, change_wf, find_by_id, Change};
use crate::layout::Layout;
use crate::mutation::{
    move_end_result, move_event, move_event_end, move_event_start, move_start_result, Direction,
};
use crate::schedule::{store_wf, ScheduleUi};
use crate::util::{same_day, second_of_day, ts_valid, SECS_PER_DAY, TS_MAX};

verus! {

/// Per-gesture states of the one event being manipulated.
#[derive(Clone, Copy, Debug, PartialEq, Eq, Structural)]
pub enum FocusedEventState {
    /// The title editor is open on the event.
    Editing,
    /// The whole event follows the pointer.
    Dragging,
    /// The event's start follows the pointer.
    DraggingEventStart,
    /// The event's end follows the pointer.
    DraggingEventEnd,
    /// A modifier-drag produced a duplicate which now follows the pointer.
    EventCloning,
}

/// The transient snapshot of the one event being manipulated; it exists
/// only between gesture start and commit or discard.
#[derive(Clone, Debug)]
pub struct InteractingEvent {
    pub event: Event,
    pub state: FocusedEventState,
}

/// A request to give an event keyboard focus on the next frame.
#[derive(Clone, Debug)]
pub struct RefocusingEvent(pub Arc<EventId>);

impl RefocusingEvent {
    /// Remember the event to refocus.
    pub fn new(event_id: &EventId) -> (r: RefocusingEvent)
        ensures
            r.0@ == event_id@,
    {
        RefocusingEvent(Arc::new(event_id.clone()))
    }
}

/// The gesture scratch state the source toolkit kept in a global per-widget
/// map, reimplemented as an explicit struct owned by the engine's caller
/// and passed by reference.
#[derive(Debug)]
pub struct InteractionContext {
    /// The event currently being manipulated, if any.
    pub interacting: Option<InteractingEvent>,
    /// A finished manipulation waiting to be applied to the store.
    pub committed: Option<Event>,
    /// A deletion request waiting to be applied to the store.
    pub deleted: Option<EventId>,
    /// An event waiting to receive keyboard focus.
    pub refocus: Option<RefocusingEvent>,
    /// The classifier's per-gesture latch.
    pub detect_latch: bool,
    /// Vertical offset between a dragged event's top and the press origin.
    pub drag_y_offset: Option<i64>,
    /// The drag-to-create gesture in progress: the created event's id and
    /// the anchor time of the initial press.
    pub new_event_gesture: Option<(EventId, i64)>,
}

impl InteractionContext {
    /// Every event the context carries is well-formed.
    pub open spec fn wf(self) -> bool {
        &&& match self.interacting {
            Some(ie) => ie.event.wf(),
            None => true,
        }
        &&& match self.committed {
            Some(e) => e.wf(),
            None => true,
        }
        &&& match self.new_event_gesture {
            Some((_, t)) => ts_valid(t),
            None => true,
        }
    }

    /// A fresh, idle context.
    pub fn new() -> (r: InteractionContext)
        ensures
            r.wf(),
            r.interacting is None,
            r.committed is None,
            r.deleted is None,
            r.refocus is None,
            !r.detect_latch,
            r.drag_y_offset is None,
            r.new_event_gesture is None,
    {
        InteractionContext {
            interacting: None,
            committed: None,
            deleted: None,
            refocus: None,
            detect_latch: false,
            drag_y_offset: None,
            new_event_gesture: None,
        }
    }

    /// Begin (or replace) the manipulation of an event.
    pub fn set_interacting(&mut self, event: Event, state: FocusedEventState)
        ensures
            *final(self) == (InteractionContext {
                interacting: Some(InteractingEvent { event, state }),
                ..*old(self)
            }),
    {
        self.interacting = Some(InteractingEvent { event, state });
    }

    /// Drop the manipulation in progress without side effects.
    pub fn discard_interacting(&mut self)
        ensures
            *final(self) == (InteractionContext { interacting: None, ..*old(self) }),
    {
        self.interacting = None;
    }

    /// Finish the manipulation in progress: its working copy moves to the
    /// commit buffer.
    pub fn commit_interacting(&mut self)
        ensures
            match old(self).interacting {
                Some(ie) => *final(self) == (InteractionContext {
                    interacting: None,
                    committed: Some(ie.event),
                    ..*old(self)
                }),
                None => *final(self) == *old(self),
            },
    {
        match self.interacting.take() {
            Some(ie) => {
                self.committed = Some(ie.event);
            },
            None => {},
        }
    }

    /// Take the committed event, if one is waiting.
    pub fn take_commited_event(&mut self) -> (r: Option<Event>)
        ensures
            r == old(self).committed,
            *final(self) == (InteractionContext { committed: None, ..*old(self) }),
    {
        self.committed.take()
    }

    /// Whether a manipulation is in progress.
    pub fn is_interacting(&self) -> (r: bool)
        ensures
            r == (self.interacting is Some),
    {
        match &self.interacting {
            Some(_) => true,
            None => false,
        }
    }

    /// Request deletion of an event.
    pub fn set_deleted(&mut self, event_id: &EventId)
        ensures
            final(self).deleted matches Some(id) && id@ == event_id@,
            *final(self) == (InteractionContext { deleted: final(self).deleted, ..*old(self) }),
    {
        self.deleted = Some(event_id.clone());
    }

    /// Take the pending deletion request, if any.
    pub fn take_deleted(&mut self) -> (r: Option<EventId>)
        ensures
            r == old(self).deleted,
            *final(self) == (InteractionContext { deleted: None, ..*old(self) }),
    {
        self.deleted.take()
    }

    /// Request keyboard focus for an event on the next frame.
    pub fn request_focus(&mut self, event_id: &EventId)
        ensures
            final(self).refocus matches Some(r) && r.0@ == event_id@,
            *final(self) == (InteractionContext { refocus: final(self).refocus, ..*old(self) }),
    {
        self.refocus = Some(RefocusingEvent::new(event_id));
    }

    /// Take the pending focus request, if any (the presentation layer maps
    /// it to its own focus handles).
    pub fn take_refocus(&mut self) -> (r: Option<RefocusingEvent>)
        ensures
            r == old(self).refocus,
            *final(self) == (InteractionContext { refocus: None, ..*old(self) }),
    {
        self.refocus.take()
    }
}

/// What the region decision does with a classified gesture over an event
/// rectangle: a click opens the editor, a drag from a resize handle grabs
/// that edge, any other drag grabs the whole event (cloning it first when
/// the modifier is held).
pub open spec fn region_decision(
    s: ScheduleUi,
    intr: Option<Interaction>,
    rect: Rect,
    ctrl: bool,
) -> Option<FocusedEventState> {
    let handles = s.spec_resizer_regions(rect);
    match intr {
        Some(Interaction::Clicked) => Some(FocusedEventState::Editing),
        Some(Interaction::DragStarted { origin }) => {
            if handles.0.spec_contains(origin) {
                Some(FocusedEventState::DraggingEventStart)
            } else if handles.1.spec_contains(origin) {
                Some(FocusedEventState::DraggingEventEnd)
            } else if ctrl {
                Some(FocusedEventState::EventCloning)
            } else {
                Some(FocusedEventState::Dragging)
            }
        },
        _ => None,
    }
}

impl ScheduleUi {
    /// Keyboard path into an event region: pressing enter on a focused
    /// event opens the editor.
    pub fn interact_event_region_keyboard(&self, has_focus: bool, enter_pressed: bool) -> (r:
        Option<FocusedEventState>)
        ensures
            r == (if has_focus && enter_pressed {
                Some(FocusedEventState::Editing)
            } else {
                None::<FocusedEventState>
            }),
    {
        if has_focus && enter_pressed {
            Some(FocusedEventState::Editing)
        } else {
            None
        }
    }

    /// Pointer path into an event region: classify the frame and decide
    /// which manipulation starts, remembering the grab offset for a
    /// whole-event drag.
    pub fn interact_event_region(
        &self,
        ctx: &mut InteractionContext,
        frame: &PointerFrame,
        interact_pos: Option<Pos>,
        event_rect: Rect,
        ctrl: bool,
    ) -> (r: Option<FocusedEventState>)
        requires
            self.wf(),
            frame.wf(),
            event_rect.bounded(),
            event_rect.x0 <= event_rect.x1,
            event_rect.y0 <= event_rect.y1,
        ensures
            interact_pos is None ==> r is None && *final(ctx) == *old(ctx),
            interact_pos is Some ==> ({
                let (intr, latch2) = classify(*frame, old(ctx).detect_latch);
                &&& r == region_decision(*self, intr, event_rect, ctrl)
                &&& final(ctx).detect_latch == latch2
                &&& (match (r, intr) {
                    (Some(FocusedEventState::Dragging), Some(Interaction::DragStarted { origin }))
                        => final(ctx).drag_y_offset == Some((event_rect.y0 - origin.y) as i64),
                    (
                        Some(FocusedEventState::EventCloning),
                        Some(Interaction::DragStarted { origin }),
                    ) => final(ctx).drag_y_offset == Some((event_rect.y0 - origin.y) as i64),
                    _ => final(ctx).drag_y_offset == old(ctx).drag_y_offset,
                })
                &&& *final(ctx) == (InteractionContext {
                    detect_latch: final(ctx).detect_latch,
                    drag_y_offset: final(ctx).drag_y_offset,
                    ..*old(ctx)
                })
            }),
    {
        if interact_pos.is_none() {
            return None;
        }
        let handles = self.event_resizer_regions(event_rect);
        match detect_interaction(frame, &mut ctx.detect_latch) {
            None => None,
            Some(Interaction::Clicked) => Some(FocusedEventState::Editing),
            Some(Interaction::DragStarted { origin }) => {
                if handles.0.contains(origin) {
                    return Some(FocusedEventState::DraggingEventStart);
                }
                if handles.1.contains(origin) {
                    return Some(FocusedEventState::DraggingEventEnd);
                }
                ctx.drag_y_offset = Some(event_rect.y0 - origin.y);
                if ctrl {
                    Some(FocusedEventState::EventCloning)
                } else {
                    Some(FocusedEventState::Dragging)
                }
            },
            Some(Interaction::DragReleased) => None,
            Some(Interaction::Dragged) => None,
        }
    }

    /// Drive one frame of a drag or resize of the working copy: while
    /// something is dragged the pointed-at time (if any) is applied through
    /// the mutation rules and the gesture continues (`None`); the frame
    /// after the release asks the caller to commit (`Some(true)`).
    pub fn interact_event(
        &self,
        event: &mut Event,
        state: FocusedEventState,
        anything_dragged: bool,
        pointer_time: Option<i64>,
        now: i64,
    ) -> (commit: Option<bool>)
        requires
            self.wf(),
            old(event).wf(),
            ts_valid(now),
            state == FocusedEventState::Dragging || state == FocusedEventState::DraggingEventStart
                || state == FocusedEventState::DraggingEventEnd,
        ensures
            final(event).wf(),
            !anything_dragged ==> commit == Some(true) && *final(event) == *old(event),
            anything_dragged ==> commit is None && (match pointer_time {
                Some(t) => {
                    if state == FocusedEventState::DraggingEventStart {
                        *final(event) == move_start_result(
                            *old(event),
                            t,
                            self.min_event_duration,
                            now,
                        )
                    } else if state == FocusedEventState::DraggingEventEnd {
                        *final(event) == move_end_result(
                            *old(event),
                            t,
                            self.min_event_duration,
                            now,
                        )
                    } else {
                        *final(event) == crate::mutation::move_result(*old(event), t, now)
                    }
                },
                None => *final(event) == *old(event),
            }),
    {
        if !anything_dragged {
            return Some(true);
        }
        match pointer_time {
            Some(t) => {
                if matches!(state, FocusedEventState::DraggingEventStart) {
                    move_event_start(event, t, self.min_event_duration, now);
                } else if matches!(state, FocusedEventState::DraggingEventEnd) {
                    move_event_end(event, t, self.min_event_duration, now);
                } else {
                    move_event(event, t, now);
                }
            },
            None => {},
        }
        None
    }

    /// A fresh event: a random identity, the engine's calendar and color,
    /// an empty title, and the minimum duration starting at the first
    /// visible day's midnight; it is born dirty so the first flush stores
    /// it.
    pub fn new_event(&self, now: i64) -> (r: Event)
        requires
            self.wf(),
            ts_valid(now),
        ensures
            r.wf(),
            r.id@.len() == 36,
            r.calendar == self.new_event_calendar,
            r.title@.len() == 0,
            r.description is None,
            r.start == self.first_day * SECS_PER_DAY,
            r.end == r.start + self.min_event_duration,
            r.timestamp == now && r.created_at == now && r.modified_at == now,
            r.color == self.new_event_color,
            r.changed && !r.deleted,
    {
        let start: i64 = self.first_day * SECS_PER_DAY;
        let mut event = Event {
            id: crate::trusted::new_event_id(),
            calendar: self.new_event_calendar.clone(),
            title: String::new(),
            description: None,
            start,
            end: start + self.min_event_duration,
            timestamp: now,
            created_at: now,
            modified_at: now,
            color: self.new_event_color,
            changed: false,
            deleted: false,
        };
        event.mark_changed(now);
        event
    }

    /// A duplicate of an event under a fresh identity, born dirty.
    pub fn clone_to_new_event(&self, event: &Event, now: i64) -> (r: Event)
        requires
            self.wf(),
            event.wf(),
            ts_valid(now),
        ensures
            r.wf(),
            r.id@.len() == 36,
            r == (Event {
                id: r.id,
                modified_at: now,
                changed: true,
                ..*event
            }),
    {
        let mut fresh = event.duplicate();
        fresh.id = crate::trusted::new_event_id();
        fresh.mark_changed(now);
        fresh
    }

    /// Where a drag-to-create gesture puts the event's interval: the press
    /// anchor and the pointer, ordered, widened to the minimum duration
    /// away from the anchor; a gesture that would cross a day boundary
    /// falls back to a minimum event on the anchor's side of the day. The
    /// endpoint that moved away from the anchor is the one being dragged.
    pub open spec fn assign_dates_spec(self, init: i64, new_time: i64) -> (i64, i64, FocusedEventState) {
        let min = self.min_event_duration;
        let reordered = init >= new_time;
        let lo = if init <= new_time {
            init
        } else {
            new_time
        };
        let hi = if init <= new_time {
            new_time
        } else {
            init
        };
        let lo_floor = if init - min >= 0 {
            (init - min) as i64
        } else {
            0i64
        };
        let hi_cap = if init + min <= TS_MAX {
            (init + min) as i64
        } else {
            TS_MAX as i64
        };
        let pair = if !same_day(lo as int, hi as int) {
            if 2 * second_of_day(init as int) < 86400 {
                (init, hi_cap)
            } else {
                (lo_floor, init)
            }
        } else {
            if hi - lo < min {
                if new_time < init {
                    (lo_floor, init)
                } else {
                    (init, hi_cap)
                }
            } else {
                (lo, hi)
            }
        };
        (
            pair.0,
            pair.1,
            if reordered {
                FocusedEventState::DraggingEventStart
            } else {
                FocusedEventState::DraggingEventEnd
            },
        )
    }

    /// Apply one frame of a drag-to-create gesture to the working copy:
    /// set its interval per [`ScheduleUi::assign_dates_spec`] and report
    /// which endpoint is being dragged.
    pub fn assign_new_event_dates(&self, init_time: i64, new_time: i64, event: &mut Event) -> (r:
        FocusedEventState)
        requires
            self.wf(),
            old(event).wf(),
            ts_valid(init_time),
            ts_valid(new_time),
        ensures
            final(event).wf(),
            ({
                let (st, en, state) = self.assign_dates_spec(init_time, new_time);
                &&& *final(event) == (Event { start: st, end: en, ..*old(event) })
                &&& r == state
            }),
    {
        let min = self.min_event_duration;
        let mut start: i64 = init_time;
        let mut end: i64 = new_time;
        let reordered = crate::util::reorder_times(&mut start, &mut end);
        let lo_floor: i64 = if init_time - min >= 0 {
            init_time - min
        } else {
            0
        };
        let hi_cap: i64 = if init_time + min <= TS_MAX {
            init_time + min
        } else {
            TS_MAX
        };
        if !crate::util::on_the_same_day(start, end) {
            if 2 * crate::util::second_of_day_ts(init_time) < 86400 {
                start = init_time;
                end = hi_cap;
            } else {
                end = init_time;
                start = lo_floor;
            }
        } else if end - start < min {
            if new_time < init_time {
                end = init_time;
                start = lo_floor;
            } else {
                start = init_time;
                end = hi_cap;
            }
        }
        event.start = start;
        event.end = end;
        if reordered {
            FocusedEventState::DraggingEventStart
        } else {
            FocusedEventState::DraggingEventEnd
        }
    }

}

/// A drag-to-create gesture is in progress: the working copy is the event
/// the gesture created.
pub open spec fn creating_gesture(c: InteractionContext) -> bool {
    match (c.new_event_gesture, c.interacting) {
        (Some((gid, _)), Some(ie)) => gid@ == ie.event.id@,
        _ => false,
    }
}

/// What one frame of the drag-to-create step does to the gesture state:
/// a click cancels the manipulation in progress, a drag start creates a
/// fresh minimum-length event anchored at the press time, a drag frame
/// re-derives its interval from the anchor and the pointer, and the
/// release switches to the title editor. `pointer_time` is where the
/// pointer points on the calendar, when it does.
pub open spec fn new_event_step(
    s: ScheduleUi,
    c0: InteractionContext,
    c1: InteractionContext,
    frame: PointerFrame,
    pointer_time: Option<i64>,
    now: i64,
) -> bool {
    let (intr, latch2) = classify(frame, c0.detect_latch);
    &&& c1.detect_latch == latch2
    &&& match intr {
        Some(Interaction::Clicked) => c1 == (InteractionContext {
            interacting: None,
            detect_latch: latch2,
            ..c0
        }),
        Some(Interaction::DragStarted { .. }) => match pointer_time {
            Some(t) => {
                let (st, en, state) = s.assign_dates_spec(t, t);
                &&& c1.interacting matches Some(ie) && ie.state == state && ie.event.id@.len()
                    == 36 && ie.event.calendar == s.new_event_calendar && ie.event.title@.len()
                    == 0 && ie.event.description is None && ie.event.start == st && ie.event.end
                    == en && ie.event.timestamp == now && ie.event.created_at == now
                    && ie.event.changed && !ie.event.deleted && ie.event.wf()
                &&& c1.new_event_gesture matches Some((gid, gt)) && gid
                    == c1.interacting->Some_0.event.id && gt == t
                &&& c1.committed == c0.committed && c1.deleted == c0.deleted && c1.refocus
                    == c0.refocus && c1.drag_y_offset == c0.drag_y_offset
            },
            None => c1 == (InteractionContext { detect_latch: latch2, ..c0 }),
        },
        Some(Interaction::DragReleased) => match (c0.new_event_gesture, c0.interacting) {
            (Some((gid, _)), Some(ie)) => {
                if gid@ == ie.event.id@ {
                    c1 == (InteractionContext {
                        interacting: Some(
                            InteractingEvent { event: ie.event, state: FocusedEventState::Editing },
                        ),
                        detect_latch: latch2,
                        ..c0
                    })
                } else {
                    c1 == (InteractionContext { detect_latch: latch2, ..c0 })
                }
            },
            _ => c1 == (InteractionContext { detect_latch: latch2, ..c0 }),
        },
        Some(Interaction::Dragged) => match (c0.new_event_gesture, c0.interacting, pointer_time) {
            (Some((gid, gt)), Some(ie), Some(t)) => {
                if gid@ == ie.event.id@ {
                    let (st, en, state) = s.assign_dates_spec(gt, t);
                    c1 == (InteractionContext {
                        interacting: Some(
                            InteractingEvent { event: Event { start: st, end: en, ..ie.event }, state },
                        ),
                        detect_latch: latch2,
                        ..c0
                    })
                } else {
                    c1 == (InteractionContext { detect_latch: latch2, ..c0 })
                }
            },
            _ => c1 == (InteractionContext { detect_latch: latch2, ..c0 }),
        },
        None => c1 == (InteractionContext { detect_latch: latch2, ..c0 }),
    }
}

/// The grid-relative pointer position the gesture drive works with: the
/// widget position less the grid margins, shifted by the remembered grab
/// offset during a whole-event drag, and dropped when it leaves the
/// classifier's working range.
pub open spec fn spec_drag_rel(
    s: ScheduleUi,
    c0: InteractionContext,
    input: FrameInput,
    st: FocusedEventState,
) -> Option<Pos> {
    match input.pointer_pos {
        None => None,
        Some(p) => {
            let qx = (p.x - s.time_marker_margin_width) as i64;
            let qy0 = (p.y - s.day_header_margin_height) as i64;
            let qy: i64 = if st == FocusedEventState::Dragging {
                match c0.drag_y_offset {
                    Some(off) => if -0x2000_0000 <= off <= 0x2000_0000 && -0x1000_0000 <= qy0
                        <= 0x1000_0000 {
                        (qy0 + off) as i64
                    } else {
                        qy0
                    },
                    None => qy0,
                }
            } else {
                qy0
            };
            if -0x2000_0000 <= qx <= 0x2000_0000 && -0x2000_0000 <= qy <= 0x2000_0000 {
                Some(Pos { x: qx, y: qy })
            } else {
                None
            }
        },
    }
}

/// Where the pointer points on the calendar during a drag or resize frame.
pub open spec fn spec_drag_time(
    s: ScheduleUi,
    c0: InteractionContext,
    input: FrameInput,
    st: FocusedEventState,
) -> Option<i64> {
    match spec_drag_rel(s, c0, input, st) {
        None => None,
        Some(q) => if !input.shift_held {
            s.spec_pointer_time_snapped(q)
        } else {
            s.spec_pointer_time(q)
        },
    }
}

/// The grid-relative pointer position over the empty canvas.
pub open spec fn spec_canvas_rel(s: ScheduleUi, input: FrameInput) -> Option<Pos> {
    match input.pointer_pos {
        None => None,
        Some(p) => {
            let qx = (p.x - s.time_marker_margin_width) as i64;
            let qy = (p.y - s.day_header_margin_height) as i64;
            if -0x2000_0000 <= qx <= 0x2000_0000 && -0x2000_0000 <= qy <= 0x2000_0000 {
                Some(Pos { x: qx, y: qy })
            } else {
                None
            }
        },
    }
}

/// Where the pointer points on the calendar over the empty canvas.
pub open spec fn spec_canvas_time(s: ScheduleUi, input: FrameInput) -> Option<i64> {
    match spec_canvas_rel(s, input) {
        None => None,
        Some(q) => if !input.shift_held {
            s.spec_pointer_time_snapped(q)
        } else {
            s.spec_pointer_time(q)
        },
    }
}

/// What one frame does to the gesture in progress (defined when a working
/// copy exists and it is not a drag-to-create). Editing: Escape discards;
/// the editor's verdict commits or discards; otherwise the copy stays. A
/// drag or resize: the release frame (nothing dragged any more) commits the
/// copy; a drag frame applies the pointed-at time through the mutation
/// rule of the grabbed part and keeps the gesture going.
pub open spec fn gesture_step(
    s: ScheduleUi,
    c0: InteractionContext,
    c1: InteractionContext,
    input: FrameInput,
) -> bool {
    let ie = c0.interacting->Some_0;
    if ie.state == FocusedEventState::Editing {
        if input.escape_pressed {
            c1 == (InteractionContext { interacting: None, ..c0 })
        } else {
            match input.editor_finished {
                Some(verdict) => if verdict {
                    c1 == (InteractionContext {
                        interacting: None,
                        committed: Some(ie.event),
                        ..c0
                    })
                } else {
                    c1 == (InteractionContext { interacting: None, ..c0 })
                },
                None => c1 == c0,
            }
        }
    } else {
        if !input.anything_dragged {
            c1 == (InteractionContext { interacting: None, committed: Some(ie.event), ..c0 })
        } else {
            let st = if ie.state == FocusedEventState::EventCloning {
                FocusedEventState::Dragging
            } else {
                ie.state
            };
            let moved = match spec_drag_time(s, c0, input, st) {
                None => ie.event,
                Some(t) => if st == FocusedEventState::DraggingEventStart {
                    move_start_result(ie.event, t, s.min_event_duration, input.now)
                } else if st == FocusedEventState::DraggingEventEnd {
                    move_end_result(ie.event, t, s.min_event_duration, input.now)
                } else {
                    crate::mutation::move_result(ie.event, t, input.now)
                },
            };
            c1 == (InteractionContext {
                interacting: Some(InteractingEvent { event: moved, state: ie.state }),
                ..c0
            })
        }
    }
}

/// What one frame does when the pointer sits over an event block and no
/// gesture is in progress: enter on the focused block opens the editor;
/// otherwise the classified pointer gesture decides through
/// [`region_decision`] which manipulation starts on a working copy of the
/// block's event (a modifier drag starts it on a fresh duplicate). The
/// block must name a stored event with a forward interval and a visible
/// rectangle; anything else leaves the state alone.
pub open spec fn region_step(
    s: ScheduleUi,
    c0: InteractionContext,
    c1: InteractionContext,
    input: FrameInput,
    layout: Layout,
) -> bool {
    let hid = input.hovered_event->Some_0;
    let i = find_by_id(s.events@, hid@);
    if i < 0 {
        c1 == c0
    } else {
        let e = s.events@[i];
        if !(e.start <= e.end) {
            c1 == c0
        } else {
            match s.spec_event_rect(layout, e) {
                None => c1 == c0,
                Some(rect) => {
                    let focused_here = match input.focused_event {
                        Some(f) => f@ == e.id@,
                        None => false,
                    };
                    if focused_here && input.enter_pressed {
                        c1 == (InteractionContext {
                            interacting: Some(
                                InteractingEvent { event: e, state: FocusedEventState::Editing },
                            ),
                            ..c0
                        })
                    } else if input.pointer_pos is None {
                        c1 == c0
                    } else {
                        let (intr, latch2) = classify(input.pointer, c0.detect_latch);
                        let dec = region_decision(s, intr, rect, input.ctrl_held);
                        let offset2 = match (dec, intr) {
                            (
                                Some(FocusedEventState::Dragging),
                                Some(Interaction::DragStarted { origin }),
                            ) => Some((rect.y0 - origin.y) as i64),
                            (
                                Some(FocusedEventState::EventCloning),
                                Some(Interaction::DragStarted { origin }),
                            ) => Some((rect.y0 - origin.y) as i64),
                            _ => c0.drag_y_offset,
                        };
                        let cmid = InteractionContext {
                            detect_latch: latch2,
                            drag_y_offset: offset2,
                            ..c0
                        };
                        match dec {
                            None => c1 == cmid,
                            Some(FocusedEventState::EventCloning) => {
                                &&& c1.interacting matches Some(ie2)
                                &&& ie2.state == FocusedEventState::Dragging
                                &&& ie2.event.id@.len() == 36
                                &&& ie2.event == (Event {
                                    id: ie2.event.id,
                                    modified_at: input.now,
                                    changed: true,
                                    ..e
                                })
                                &&& c1 == (InteractionContext {
                                    interacting: c1.interacting,
                                    ..cmid
                                })
                            },
                            Some(st) => c1 == (InteractionContext {
                                interacting: Some(InteractingEvent { event: e, state: st }),
                                ..cmid
                            }),
                        }
                    }
                },
            }
        }
    }
}

impl ScheduleUi {
    /// Drive the drag-to-create gesture on the empty canvas (see
    /// [`new_event_step`]).
    pub fn handle_new_event(
        &self,
        ctx: &mut InteractionContext,
        frame: &PointerFrame,
        rel_pos: Option<Pos>,
        snapping: bool,
        now: i64,
    )
        requires
            self.wf(),
            old(ctx).wf(),
            frame.wf(),
            ts_valid(now),
            match rel_pos {
                Some(p) => p.bounded(),
                None => true,
            },
        ensures
            final(ctx).wf(),
            new_event_step(
                *self,
                *old(ctx),
                *final(ctx),
                *frame,
                (match rel_pos {
                    Some(p) => if snapping {
                        self.spec_pointer_time_snapped(p)
                    } else {
                        self.spec_pointer_time(p)
                    },
                    None => None,
                }),
                now,
            ),
    {
        let intr = detect_interaction(frame, &mut ctx.detect_latch);
        match intr {
            None => {},
            Some(Interaction::Clicked) => {
                ctx.interacting = None;
            },
            Some(Interaction::DragStarted { .. }) => {
                let pos = match rel_pos {
                    Some(p) => p,
                    None => {
                        return ;
                    },
                };
                let t = match self.pointer_to_datetime_auto(pos, snapping) {
                    Some(t) => t,
                    None => {
                        return ;
                    },
                };
                let mut event = self.new_event(now);
                let state = self.assign_new_event_dates(t, t, &mut event);
                ctx.new_event_gesture = Some((event.id.clone(), t));
                ctx.interacting = Some(InteractingEvent { event, state });
            },
            Some(Interaction::DragReleased) => {
                let gid = match &ctx.new_event_gesture {
                    Some((gid, _)) => gid,
                    None => {
                        return ;
                    },
                };
                match &mut ctx.interacting {
                    Some(ie) => {
                        if ie.event.id == *gid {
                            ie.state = FocusedEventState::Editing;
                        }
                    },
                    None => {},
                }
            },
            Some(Interaction::Dragged) => {
                let (gid, gt) = match &ctx.new_event_gesture {
                    Some((gid, gt)) => (gid, *gt),
                    None => {
                        return ;
                    },
                };
                let pos = match rel_pos {
                    Some(p) => p,
                    None => {
                        return ;
                    },
                };
                let t = match self.pointer_to_datetime_auto(pos, snapping) {
                    Some(t) => t,
                    None => {
                        return ;
                    },
                };
                match &mut ctx.interacting {
                    Some(ie) => {
                        if ie.event.id == *gid {
                            let state = self.assign_new_event_dates(gt, t, &mut ie.event);
                            ie.state = state;
                        }
                    },
                    None => {},
                }
            },
        }
    }

    /// Fold the finished gesture into the store: a committed working copy
    /// becomes a change record that is applied and saved on the undo stack
    /// (and its event asks for focus); a pending deletion likewise.
    pub fn apply_interacting_events(&mut self, ctx: &mut InteractionContext, now: i64)
        requires
            old(self).wf(),
            old(ctx).wf(),
            ts_valid(now),
            old(self).events@.len() + 2 < 0x1000_0000,
        ensures
            final(self).wf(),
            final(ctx).wf(),
            ({
                let s0 = old(self).events@;
                let h0 = old(self).history.changes@;
                let (s1, h1) = match old(ctx).committed {
                    Some(ev) => {
                        let c = commit_change(s0, ev);
                        (apply_spec(c, s0, now), h0.push(c))
                    },
                    None => (s0, h0),
                };
                let (s2, h2) = match old(ctx).deleted {
                    Some(id) => {
                        let i = find_by_id(s1, id@);
                        if i >= 0 {
                            let c = Change::Removed { prior: s1[i] };
                            (apply_spec(c, s1, now), h1.push(c))
                        } else {
                            (s1, h1)
                        }
                    },
                    None => (s1, h1),
                };
                &&& final(self).events@ == s2
                &&& final(self).history.changes@ == h2
                &&& *final(self) == (ScheduleUi {
                    events: final(self).events,
                    history: final(self).history,
                    ..*old(self)
                })
                &&& final(ctx).committed is None
                &&& final(ctx).deleted is None
                &&& (old(ctx).committed matches Some(ev) ==> final(ctx).refocus matches Some(r)
                    && r.0@ == ev.id@)
                &&& (old(ctx).committed is None ==> final(ctx).refocus == old(ctx).refocus)
                &&& *final(ctx) == (InteractionContext {
                    committed: None,
                    deleted: None,
                    refocus: final(ctx).refocus,
                    ..*old(ctx)
                })
            }),
    {
        match ctx.take_commited_event() {
            Some(event) => {
                ctx.request_focus(&event.id);
                proof {
                    crate::history::lemma_find_by_id(self.events@, event.id@);
                }
                let change = Change::new_changed(&self.events, event);
                proof {
                    lemma_apply_keeps_store_wf(change, self.events@, now);
                }
                change.apply(&mut self.events, now);
                self.history.save(change);
            },
            None => {},
        }
        match ctx.take_deleted() {
            Some(event_id) => {
                proof {
                    crate::history::lemma_find_by_id(self.events@, event_id@);
                }
                match Change::new_removed(&self.events, &event_id) {
                    Some(change) => {
                        proof {
                            lemma_apply_keeps_store_wf(change, self.events@, now);
                        }
                        change.apply(&mut self.events, now);
                        self.history.save(change);
                    },
                    None => {},
                }
            },
            None => {},
        }
    }

    /// Undo the most recent change, if any: pop it and apply its reverse.
    /// Undo on an empty history is a no-op, and an undo is itself not
    /// undoable (no redo stack).
    pub fn handle_undo(&mut self, undo_requested: bool, now: i64)
        requires
            old(self).wf(),
            ts_valid(now),
            old(self).events@.len() + 1 < 0x1000_0000,
        ensures
            final(self).wf(),
            final(self).events@.len() <= old(self).events@.len() + 1,
            !undo_requested || old(self).history.changes@.len() == 0 ==> *final(self) == *old(
                self,
            ),
            undo_requested && old(self).history.changes@.len() > 0 ==> ({
                let c = old(self).history.changes@.last();
                &&& final(self).events@ == apply_spec(c.spec_reverse(), old(self).events@, now)
                &&& final(self).history.changes@ == old(self).history.changes@.drop_last()
                &&& *final(self) == (ScheduleUi {
                    events: final(self).events,
                    history: final(self).history,
                    ..*old(self)
                })
            }),
    {
        if !undo_requested {
            return ;
        }
        if self.history.changes.len() == 0 {
            return ;
        }
        proof {
            assert(crate::history::change_wf(self.history.changes@.last()));
        }
        match self.history.pop() {
            Some(change) => {
                let rev = change.reverse();
                let ghost grev = rev;
                let ghost s_before = self.events@;
                proof {
                    lemma_apply_keeps_store_wf(rev, self.events@, now);
                }
                rev.apply(&mut self.events, now);
                proof {
                    match grev {
                        Change::Added { new } => {
                            crate::history::lemma_find_by_id(s_before, new.id@);
                        },
                        Change::Removed { prior } => {
                            crate::history::lemma_find_by_id(s_before, prior.id@);
                        },
                        Change::Modified { prior, new } => {
                            crate::history::lemma_find_by_id(s_before, prior.id@);
                        },
                    }
                    assert(self.events@.len() <= s_before.len() + 1);
                }
            },
            None => {},
        }
    }
}

/// The navigation keys pressed this frame, with the vi keys and the arrow
/// keys already merged by the caller.
#[derive(Clone, Copy, Debug, PartialEq, Eq, Structural)]
pub struct DirectionKeys {
    pub up: bool,
    pub down: bool,
    pub left: bool,
    pub right: bool,
}

/// An event end qualifies as "the last thing scheduled today": it falls on
/// the reference day and not exactly on its midnight.
pub open spec fn ends_today(e: Event, now_local: i64) -> bool {
    crate::util::day_of(e.end as int) == crate::util::day_of(now_local as int) && second_of_day(
        e.end as int,
    ) > 0
}

/// The prioritized start for a keyboard-created event: the latest end of
/// today's events; otherwise the current time snapped to the grid, when
/// visible; otherwise the latest end of any event.
pub open spec fn start_candidate(s: ScheduleUi, now_local: i64, t: i64) -> bool {
    let snap = s.snapping_duration as int;
    let snapped = ((2 * now_local + snap) / (2 * snap)) * snap;
    let snap_visible = s.first_day <= crate::util::day_of(snapped) < s.first_day + s.day_count;
    if exists|j: int| 0 <= j < s.events@.len() && ends_today(#[trigger] s.events@[j], now_local) {
        &&& (exists|j: int|
            0 <= j < s.events@.len() && ends_today(#[trigger] s.events@[j], now_local)
                && s.events@[j].end == t)
        &&& forall|j: int|
            0 <= j < s.events@.len() && ends_today(#[trigger] s.events@[j], now_local)
                ==> s.events@[j].end <= t
    } else if snap_visible {
        t == snapped
    } else if s.events@.len() > 0 {
        &&& (exists|j: int| 0 <= j < s.events@.len() && (#[trigger] s.events@[j]).end == t)
        &&& forall|j: int| 0 <= j < s.events@.len() ==> (#[trigger] s.events@[j]).end <= t
    } else {
        false
    }
}

/// No start candidate exists: nothing ends today, the snapped current time
/// is out of view, and the store is empty.
pub open spec fn no_start_candidate(s: ScheduleUi, now_local: i64) -> bool {
    !exists|t: i64| start_candidate(s, now_local, t)
}

impl ScheduleUi {
    /// Map the pressed navigation keys to a direction, unless a gesture is
    /// in progress (which navigation must not interrupt). Down wins over
    /// up, up over left, and left over right.
    pub fn key_direction_input(&self, interacting: bool, keys: DirectionKeys) -> (r: Option<
        Direction,
    >)
        ensures
            interacting ==> r is None,
            !interacting ==> r == (if keys.down {
                Some(Direction::Down)
            } else if keys.up {
                Some(Direction::Up)
            } else if keys.left {
                Some(Direction::Left)
            } else if keys.right {
                Some(Direction::Right)
            } else {
                None::<Direction>
            }),
    {
        if interacting {
            return None;
        }
        if keys.down {
            Some(Direction::Down)
        } else if keys.up {
            Some(Direction::Up)
        } else if keys.left {
            Some(Direction::Left)
        } else if keys.right {
            Some(Direction::Right)
        } else {
            None
        }
    }

    /// Request deletion of the focused event when the delete key was
    /// pressed and no gesture is in progress.
    pub fn handle_keyboard_delete_event(
        &self,
        ctx: &mut InteractionContext,
        focused: Option<&EventId>,
        delete_pressed: bool,
    )
        ensures
            match focused {
                Some(id) => {
                    if delete_pressed && old(ctx).interacting is None {
                        final(ctx).deleted matches Some(d) && d@ == id@ && *final(ctx)
                            == (InteractionContext { deleted: final(ctx).deleted, ..*old(ctx) })
                    } else {
                        *final(ctx) == *old(ctx)
                    }
                },
                None => *final(ctx) == *old(ctx),
            },
    {
        if ctx.is_interacting() {
            return ;
        }
        match focused {
            Some(id) => {
                if delete_pressed {
                    ctx.set_deleted(id);
                }
            },
            None => {},
        }
    }

    /// Move the focused event a day sideways or a minimum duration up or
    /// down, through the move rule (so the day guard applies).
    pub fn handle_keyboard_focused_event_move(&mut self, focused: &EventId, dir: Direction, now: i64)
        requires
            old(self).wf(),
            ts_valid(now),
        ensures
            final(self).wf(),
            final(self).events@.len() == old(self).events@.len(),
            final(self).history == old(self).history,
            ({
                let i = find_by_id(old(self).events@, focused@);
                let delta: int = match dir {
                    Direction::Left => -SECS_PER_DAY as int,
                    Direction::Right => SECS_PER_DAY as int,
                    Direction::Up => -old(self).min_event_duration as int,
                    Direction::Down => old(self).min_event_duration as int,
                };
                if i >= 0 {
                    let target = old(self).events@[i].start + delta;
                    &&& final(self).events@ == old(self).events@.update(
                        i,
                        crate::mutation::move_result(
                            old(self).events@[i],
                            target as i64,
                            now,
                        ),
                    )
                    &&& *final(self) == (ScheduleUi { events: final(self).events, ..*old(self) })
                } else {
                    *final(self) == *old(self)
                }
            }),
    {
        proof {
            crate::history::lemma_find_by_id(self.events@, focused@);
        }
        let i = match crate::history::find_index_by_id(&self.events, focused) {
            Some(i) => i,
            None => {
                return ;
            },
        };
        let delta: i64 = match dir {
            Direction::Left => -SECS_PER_DAY,
            Direction::Right => SECS_PER_DAY,
            Direction::Up => -self.min_event_duration,
            Direction::Down => self.min_event_duration,
        };
        let mut e = self.events[i].duplicate();
        let target: i64 = e.start + delta;
        move_event(&mut e, target, now);
        self.events.set(i, e);
        proof {
            assert forall|a: int, b: int|
                0 <= a < b < self.events@.len() implies (#[trigger] self.events@[a]).id@ != (
            #[trigger] self.events@[b]).id@ by {
                assert(self.events@[a].id == old(self).events@[a].id);
                assert(self.events@[b].id == old(self).events@[b].id);
            }
        }
    }

    /// Resize the focused event by a day or a minimum duration, through the
    /// end-move rule (so the duration and day guards apply).
    pub fn handle_keyboard_focused_event_resize(
        &mut self,
        focused: &EventId,
        dir: Direction,
        now: i64,
    )
        requires
            old(self).wf(),
            ts_valid(now),
        ensures
            final(self).wf(),
            final(self).events@.len() == old(self).events@.len(),
            final(self).history == old(self).history,
            ({
                let i = find_by_id(old(self).events@, focused@);
                let delta: int = match dir {
                    Direction::Left => -SECS_PER_DAY as int,
                    Direction::Right => SECS_PER_DAY as int,
                    Direction::Up => -old(self).min_event_duration as int,
                    Direction::Down => old(self).min_event_duration as int,
                };
                if i >= 0 {
                    let target = old(self).events@[i].end + delta;
                    &&& final(self).events@ == old(self).events@.update(
                        i,
                        move_end_result(
                            old(self).events@[i],
                            target as i64,
                            old(self).min_event_duration,
                            now,
                        ),
                    )
                    &&& *final(self) == (ScheduleUi { events: final(self).events, ..*old(self) })
                } else {
                    *final(self) == *old(self)
                }
            }),
    {
        proof {
            crate::history::lemma_find_by_id(self.events@, focused@);
        }
        let i = match crate::history::find_index_by_id(&self.events, focused) {
            Some(i) => i,
            None => {
                return ;
            },
        };
        let delta: i64 = match dir {
            Direction::Left => -SECS_PER_DAY,
            Direction::Right => SECS_PER_DAY,
            Direction::Up => -self.min_event_duration,
            Direction::Down => self.min_event_duration,
        };
        let mut e = self.events[i].duplicate();
        let target: i64 = e.end + delta;
        move_event_end(&mut e, target, self.min_event_duration, now);
        self.events.set(i, e);
        proof {
            assert forall|a: int, b: int|
                0 <= a < b < self.events@.len() implies (#[trigger] self.events@[a]).id@ != (
            #[trigger] self.events@[b]).id@ by {
                assert(self.events@[a].id == old(self).events@[a].id);
                assert(self.events@[b].id == old(self).events@[b].id);
            }
        }
    }

    /// Move the keyboard focus: with no current focus, to the event nearest
    /// the current time; otherwise to the adjacent or juxtaposed event in
    /// the pressed direction. When no event is found sideways, the window
    /// scrolls a day instead (as far as its range allows).
    pub fn handle_keyboard_focus_move(
        &mut self,
        ctx: &mut InteractionContext,
        focused: Option<&EventId>,
        dir: Direction,
    ) -> (r: Option<EventId>)
        requires
            old(self).wf(),
        ensures
            final(self).wf(),
            final(ctx).wf() == old(ctx).wf(),
            *final(self) == (ScheduleUi {
                first_day: final(self).first_day,
                scope_updated: final(self).scope_updated,
                ..*old(self)
            }),
            r matches Some(id) ==> final(ctx).refocus matches Some(rf) && rf.0@ == id@
                && *final(self) == *old(self),
    {
        let new_focus: Option<EventId> = match focused {
            None => {
                match self.current_time {
                    Some(t) => crate::mutation::find_nearest_event(&self.events, t),
                    None => None,
                }
            },
            Some(id) => crate::mutation::find_next_focus(id, dir, &self.events),
        };
        match new_focus {
            Some(id) => {
                ctx.request_focus(&id);
                Some(id)
            },
            None => {
                match dir {
                    Direction::Left => {
                        if self.first_day >= 1 {
                            self.scroll_horizontally(-1);
                        }
                    },
                    Direction::Right => {
                        if self.first_day + 1 <= 100_000_000 {
                            self.scroll_horizontally(1);
                        }
                    },
                    _ => {},
                }
                None
            },
        }
    }

    /// The latest end among today's events, today's snapped current time
    /// when visible, or the latest end overall: where a keyboard-created
    /// event goes.
    fn choose_new_event_start(&self, now_local: i64) -> (r: Option<i64>)
        requires
            self.wf(),
            ts_valid(now_local),
        ensures
            match r {
                Some(t) => start_candidate(*self, now_local, t),
                None => no_start_candidate(*self, now_local),
            },
    {
        let mut best_today: Option<i64> = None;
        let mut best_any: Option<i64> = None;
        let today = crate::util::day_of_ts(now_local);
        let mut j: usize = 0;
        while j < self.events.len()
            invariant
                self.wf(),
                ts_valid(now_local),
                today == crate::util::day_of(now_local as int),
                0 <= j <= self.events@.len(),
                match best_today {
                    Some(t) => (exists|k: int|
                        0 <= k < j && ends_today(#[trigger] self.events@[k], now_local)
                            && self.events@[k].end == t) && (forall|k: int|
                        0 <= k < j && ends_today(#[trigger] self.events@[k], now_local)
                            ==> self.events@[k].end <= t),
                    None => forall|k: int|
                        0 <= k < j ==> !ends_today(#[trigger] self.events@[k], now_local),
                },
                match best_any {
                    Some(t) => (exists|k: int|
                        0 <= k < j && (#[trigger] self.events@[k]).end == t) && (forall|k: int|
                        0 <= k < j ==> (#[trigger] self.events@[k]).end <= t),
                    None => j == 0,
                },
            decreases self.events@.len() - j,
        {
            let e_end = self.events[j].end;
            let q_today = crate::util::day_of_ts(e_end) == today && crate::util::second_of_day_ts(
                e_end,
            ) > 0;
            if q_today {
                best_today = match best_today {
                    Some(t) => if e_end > t {
                        Some(e_end)
                    } else {
                        Some(t)
                    },
                    None => Some(e_end),
                };
            }
            best_any = match best_any {
                Some(t) => if e_end > t {
                    Some(e_end)
                } else {
                    Some(t)
                },
                None => Some(e_end),
            };
            j = j + 1;
        }
        match best_today {
            Some(t) => {
                return Some(t);
            },
            None => {},
        }
        let snapped = self.snap_to_nearest(now_local);
        if self.is_visible(snapped) {
            return Some(snapped);
        }
        best_any
    }

    /// Keyboard event creation: place a fresh minimum-length event at the
    /// prioritized start (see [`start_candidate`]), open its title editor,
    /// and return the vertical scroll position that brings it into view.
    /// Nothing happens when a gesture is in progress or no start exists.
    pub fn handle_keyboard_new_event(
        &self,
        ctx: &mut InteractionContext,
        new_key_pressed: bool,
        now_local: i64,
        now: i64,
    ) -> (r: Option<i64>)
        requires
            self.wf(),
            old(ctx).wf(),
            ts_valid(now_local),
            ts_valid(now),
        ensures
            final(ctx).wf(),
            !new_key_pressed || old(ctx).interacting is Some ==> r is None && *final(ctx) == *old(
                ctx,
            ),
            new_key_pressed && old(ctx).interacting is None && !no_start_candidate(
                *self,
                now_local,
            ) ==> r is Some,
            r is None ==> *final(ctx) == *old(ctx),
            r matches Some(pos) ==> ({
                &&& final(ctx).interacting matches Some(ie)
                &&& ie.state == FocusedEventState::Editing
                &&& ie.event.wf()
                &&& ie.event.id@.len() == 36
                &&& ie.event.title@.len() == 0
                &&& ie.event.calendar == self.new_event_calendar
                &&& exists|t: i64|
                    #[trigger] start_candidate(*self, now_local, t) && ie.event
                        == crate::mutation::move_result(
                        Event {
                            start: (self.first_day * SECS_PER_DAY) as i64,
                            end: (self.first_day * SECS_PER_DAY + self.min_event_duration) as i64,
                            ..ie.event
                        },
                        t,
                        now,
                    )
                &&& pos as int == (second_of_day(ie.event.start as int)
                    * self.spec_content_height()) / 86400 + self.day_header_margin_height
                &&& *final(ctx) == (InteractionContext {
                    interacting: final(ctx).interacting,
                    ..*old(ctx)
                })
            }),
    {
        if !new_key_pressed {
            return None;
        }
        if ctx.is_interacting() {
            return None;
        }
        let start = match self.choose_new_event_start(now_local) {
            Some(t) => t,
            None => {
                return None;
            },
        };
        let mut event = self.new_event(now);
        move_event(&mut event, start, now);
        let pos = self.scroll_position(event.start);
        ctx.set_interacting(event, FocusedEventState::Editing);
        Some(pos)
    }
}

/// Swapping the working copy into a store with unique ids keeps the ids
/// unique: it either replaces the stored event with the same id or appends
/// under an id the store does not hold.
pub proof fn lemma_combine_unique(events: Seq<Event>, interacting: Option<Event>)
    requires
        forall|i: int, j: int|
            0 <= i < j < events.len() ==> (#[trigger] events[i]).id@ != (#[trigger] events[j]).id@,
    ensures
        crate::schedule::unique_combined_ids(
            crate::mutation::combine_events_spec(events, interacting),
        ),
{
    let base = events.map_values(|e: Event| crate::mutation::CombinedEvent::ExistingEvent(e));
    let c = crate::mutation::combine_events_spec(events, interacting);
    assert forall|i: int| 0 <= i < base.len() implies (#[trigger] base[i]).spec_event()
        == events[i] by {}
    match interacting {
        None => {
            assert forall|i: int, j: int| 0 <= i < j < c.len() implies (
            #[trigger] c[i]).spec_event().id@ != (#[trigger] c[j]).spec_event().id@ by {
                assert(c[i].spec_event() == events[i] && c[j].spec_event() == events[j]);
            }
        },
        Some(ie) => {
            crate::history::lemma_find_by_id(events, ie.id@);
            let k = find_by_id(events, ie.id@);
            assert forall|i: int, j: int| 0 <= i < j < c.len() implies (
            #[trigger] c[i]).spec_event().id@ != (#[trigger] c[j]).spec_event().id@ by {
                if k >= 0 {
                    assert(c[i].spec_event().id@ == events[i].id@);
                    assert(c[j].spec_event().id@ == events[j].id@);
                } else {
                    if j < events.len() {
                        assert(c[i].spec_event() == events[i] && c[j].spec_event() == events[j]);
                    } else {
                        assert(c[i].spec_event() == events[i]);
                        assert(c[j].spec_event() == ie);
                        assert(events[i].id@ != ie.id@);
                    }
                }
            }
        },
    }
}

/// One frame of input, as the presentation layer hands it to the engine.
#[derive(Clone, Debug)]
pub struct FrameInput {
    /// The raw pointer state over the schedule widget.
    pub pointer: PointerFrame,
    /// The pointer position within the widget, when known.
    pub pointer_pos: Option<Pos>,
    /// The toolkit reports some drag in progress.
    pub anything_dragged: bool,
    /// The clone modifier is held.
    pub ctrl_held: bool,
    /// The snap-disabling modifier is held.
    pub shift_held: bool,
    /// Escape was pressed (discards the gesture in progress).
    pub escape_pressed: bool,
    /// The title editor's verdict this frame: commit, discard, or keep
    /// editing.
    pub editor_finished: Option<bool>,
    /// The event block under the pointer, as hit-tested by the renderer.
    pub hovered_event: Option<EventId>,
    /// The event block holding keyboard focus.
    pub focused_event: Option<EventId>,
    /// Enter was pressed (opens the editor on the focused event).
    pub enter_pressed: bool,
    /// The new-event key was pressed.
    pub new_key_pressed: bool,
    /// The delete key was pressed.
    pub delete_pressed: bool,
    /// The undo chord was pressed.
    pub undo_requested: bool,
    /// Unmodified navigation keys (focus movement).
    pub direction_keys: DirectionKeys,
    /// Control-modified navigation keys (move the focused event).
    pub ctrl_direction_keys: DirectionKeys,
    /// Shift-modified navigation keys (resize the focused event).
    pub shift_direction_keys: DirectionKeys,
    /// The wall clock, as seconds in the display timezone.
    pub now: i64,
}

impl FrameInput {
    /// The frame's payloads are within the engine's working ranges.
    pub open spec fn wf(self) -> bool {
        &&& self.pointer.wf()
        &&& match self.pointer_pos {
            Some(p) => p.bounded(),
            None => true,
        }
        &&& ts_valid(self.now)
    }
}

/// What the presentation layer needs to draw one frame: the current event
/// list (with the working copy swapped in) and its span layout.
#[derive(Debug)]
pub struct RenderModel {
    pub layout: crate::layout::Layout,
    pub events: Vec<crate::mutation::CombinedEvent>,
}

impl ScheduleUi {

    /// The pointer step of one frame, in three mutually exclusive parts:
    /// drive the gesture in progress ([`gesture_step`]), start one from the
    /// hovered event block ([`region_step`]), or run the drag-to-create
    /// gesture on the empty canvas ([`new_event_step`]). While an existing
    /// event's gesture runs, empty-canvas input is ignored: the editor's
    /// verdict and the drag release already cover commit and discard.
    fn drive_pointer(
        &self,
        ctx: &mut InteractionContext,
        input: &FrameInput,
        layout: &Layout,
    )
        requires
            self.wf(),
            old(ctx).wf(),
            input.wf(),
            layout.wf(),
            forall|m: int|
                0 <= m < layout.entries@.len() ==> (#[trigger] layout.entries@[m]).1.width
                    <= 0x1000_0000,
        ensures
            final(ctx).wf(),
            ({
                let was = old(ctx).interacting is Some;
                let gc = creating_gesture(*old(ctx));
                if was && !gc {
                    gesture_step(*self, *old(ctx), *final(ctx), *input)
                } else if !was && input.hovered_event is Some {
                    region_step(*self, *old(ctx), *final(ctx), *input, *layout)
                } else if input.hovered_event is None {
                    new_event_step(
                        *self,
                        *old(ctx),
                        *final(ctx),
                        input.pointer,
                        spec_canvas_time(*self, *input),
                        input.now,
                    )
                } else {
                    *final(ctx) == *old(ctx)
                }
            }),
    {
        let now = input.now;
        let was_interacting = ctx.is_interacting();
        let gesture_create = match (&ctx.new_event_gesture, &ctx.interacting) {
            (Some((gid, _)), Some(ie)) => ie.event.id == *gid,
            _ => false,
        };
        if was_interacting && !gesture_create {
            let mut ie = match ctx.interacting.take() {
                Some(ie) => ie,
                None => {
                    proof {
                        assert(false);
                    }
                    InteractingEvent {
                        event: self.new_event(now),
                        state: FocusedEventState::Editing,
                    }
                },
            };
            if matches!(ie.state, FocusedEventState::Editing) {
                if input.escape_pressed {
                    // discard: the working copy is dropped
                } else {
                    match input.editor_finished {
                        Some(true) => {
                            ctx.committed = Some(ie.event);
                        },
                        Some(false) => {},
                        None => {
                            ctx.interacting = Some(ie);
                        },
                    }
                }
            } else {
                let state = if matches!(ie.state, FocusedEventState::EventCloning) {
                    FocusedEventState::Dragging
                } else {
                    ie.state
                };
                let rel: Option<Pos> = match input.pointer_pos {
                    Some(p) => {
                        let qx: i64 = p.x - self.time_marker_margin_width;
                        let qy0: i64 = p.y - self.day_header_margin_height;
                        let qy: i64 = if matches!(state, FocusedEventState::Dragging) {
                            match ctx.drag_y_offset {
                                Some(off) => {
                                    if -0x2000_0000 <= off && off <= 0x2000_0000 && -0x1000_0000
                                        <= qy0 && qy0 <= 0x1000_0000 {
                                        qy0 + off
                                    } else {
                                        qy0
                                    }
                                },
                                None => qy0,
                            }
                        } else {
                            qy0
                        };
                        if -0x2000_0000 <= qx && qx <= 0x2000_0000 && -0x2000_0000 <= qy && qy
                            <= 0x2000_0000 {
                            Some(Pos { x: qx, y: qy })
                        } else {
                            None
                        }
                    },
                    None => None,
                };
                proof {
                    assert(rel == spec_drag_rel(*self, *old(ctx), *input, state));
                }
                let ptime: Option<i64> = match rel {
                    Some(p) => self.pointer_to_datetime_auto(p, !input.shift_held),
                    None => None,
                };
                proof {
                    assert(ptime == spec_drag_time(*self, *old(ctx), *input, state));
                }
                let commit = self.interact_event(
                    &mut ie.event,
                    state,
                    input.anything_dragged,
                    ptime,
                    now,
                );
                match commit {
                    Some(true) => {
                        ctx.committed = Some(ie.event);
                    },
                    Some(false) => {},
                    None => {
                        ctx.interacting = Some(ie);
                    },
                }
            }
            proof {
                assert(gesture_step(*self, *old(ctx), *final(ctx), *input));
            }
        } else {
            match &input.hovered_event {
                Some(hid) => {
                    if !was_interacting {
                        proof {
                            crate::history::lemma_find_by_id(self.events@, hid@);
                        }
                        match crate::history::find_index_by_id(&self.events, hid) {
                            Some(i) => {
                                if self.events[i].start <= self.events[i].end {
                                    match self.event_rect(&layout, &self.events[i]) {
                                        Some(rect) => {
                                            let focused_here = match &input.focused_event {
                                                Some(fid) => *fid == self.events[i].id,
                                                None => false,
                                            };
                                            let kb = self.interact_event_region_keyboard(
                                                focused_here,
                                                input.enter_pressed,
                                            );
                                            if let Some(st0) = kb {
                                                ctx.set_interacting(
                                                    self.events[i].duplicate(),
                                                    st0,
                                                );
                                            } else if input.pointer_pos.is_some() {
                                                let offset = self.content_offset();
                                                let interact_pos: Option<Pos> =
                                                    match input.pointer_pos {
                                                    Some(p) => Some(
                                                        Pos {
                                                            x: p.x - offset.x,
                                                            y: p.y - offset.y,
                                                        },
                                                    ),
                                                    None => None,
                                                };
                                                let decision = self.interact_event_region(
                                                    ctx,
                                                    &input.pointer,
                                                    interact_pos,
                                                    rect,
                                                    input.ctrl_held,
                                                );
                                                match decision {
                                                    Some(FocusedEventState::EventCloning) => {
                                                        let fresh = self.clone_to_new_event(
                                                            &self.events[i],
                                                            now,
                                                        );
                                                        ctx.set_interacting(
                                                            fresh,
                                                            FocusedEventState::Dragging,
                                                        );
                                                    },
                                                    Some(st) => {
                                                        ctx.set_interacting(
                                                            self.events[i].duplicate(),
                                                            st,
                                                        );
                                                    },
                                                    None => {},
                                                }
                                            }
                                        },
                                        None => {},
                                    }
                                }
                            },
                            None => {},
                        }
                        proof {
                            assert(region_step(*self, *old(ctx), *final(ctx), *input, *layout));
                        }
                    }
                    // else: a drag-to-create gesture is passing over an
                    // event block; nothing reacts until it returns to the
                    // canvas or releases
                },
                None => {
                    let offset = self.content_offset();
                    let rel: Option<Pos> = match input.pointer_pos {
                        Some(p) => {
                            let qx: i64 = p.x - offset.x;
                            let qy: i64 = p.y - offset.y;
                            if -0x2000_0000 <= qx && qx <= 0x2000_0000 && -0x2000_0000 <= qy && qy
                                <= 0x2000_0000 {
                                Some(Pos { x: qx, y: qy })
                            } else {
                                None
                            }
                        },
                        None => None,
                    };
                    proof {
                        assert(rel == spec_canvas_rel(*self, *input));
                    }
                    self.handle_new_event(ctx, &input.pointer, rel, !input.shift_held, now);
                },
            }
        }
    }

    /// The keyboard step of one frame: focus movement, moving and resizing
    /// the focused event, keyboard event creation, and deletion. None of
    /// these change how many events the store holds.
    fn drive_hotkeys(&mut self, ctx: &mut InteractionContext, input: &FrameInput)
        requires
            old(self).wf(),
            old(ctx).wf(),
            input.wf(),
        ensures
            final(self).wf(),
            final(ctx).wf(),
            final(self).events@.len() == old(self).events@.len(),
            final(self).history == old(self).history,
    {
        let now = input.now;
        // hotkeys
        let interacting_now = ctx.is_interacting();
        match self.key_direction_input(interacting_now, input.direction_keys) {
            Some(dir) => {
                self.handle_keyboard_focus_move(ctx, input.focused_event.as_ref(), dir);
            },
            None => {},
        }
        match (
            self.key_direction_input(interacting_now, input.ctrl_direction_keys),
            &input.focused_event,
        ) {
            (Some(dir), Some(fid)) => {
                self.handle_keyboard_focused_event_move(fid, dir, now);
            },
            _ => {},
        }
        match (
            self.key_direction_input(interacting_now, input.shift_direction_keys),
            &input.focused_event,
        ) {
            (Some(dir), Some(fid)) => {
                self.handle_keyboard_focused_event_resize(fid, dir, now);
            },
            _ => {},
        }
        self.handle_keyboard_new_event(ctx, input.new_key_pressed, now, now);
        self.handle_keyboard_delete_event(ctx, input.focused_event.as_ref(), input.delete_pressed);
    }

    /// Advance the engine by one input frame: regularize the store, lay out
    /// the visible events (working copy included), run the gesture state
    /// machine and the keyboard handlers, apply whatever committed, and
    /// hand back the render model. The model is exactly the layout of the
    /// regularized store with the working copy swapped in, and it carries
    /// the layout guarantees: every live visible event has a span, and
    /// same-day events that overlap in time never overlap on screen.
    #[verifier::rlimit(100)]
    pub fn advance(&mut self, ctx: &mut InteractionContext, input: FrameInput) -> (r: RenderModel)
        requires
            old(self).wf(),
            old(ctx).wf(),
            input.wf(),
            old(self).events@.len() + 3 < 0x1000_0000,
        ensures
            final(self).wf(),
            final(ctx).wf(),
            final(ctx).committed is None,
            final(ctx).deleted is None,
            !input.undo_requested ==> old(self).history.changes@.is_prefix_of(
                final(self).history.changes@,
            ),
            r.layout.wf(),
            ({
                let s1 = Seq::new(
                    old(self).events@.len(),
                    |i: int|
                        crate::schedule::regularized_one(
                            old(self).events@[i],
                            old(self).min_event_duration,
                            input.now,
                        ),
                );
                let inter = match old(ctx).interacting {
                    Some(ie) => Some(ie.event),
                    None => None,
                };
                &&& r.events@ == crate::mutation::combine_events_spec(s1, inter)
                &&& crate::schedule::day_layout_covers(
                    *old(self),
                    r.events@,
                    old(self).day_count as int,
                    r.layout.entries@,
                )
                &&& crate::schedule::day_layout_ok(
                    *old(self),
                    r.events@,
                    old(self).day_count as int,
                    r.layout.entries@,
                )
            }),
    {
        let now = input.now;
        // regularize timezone-normalized events and enforce the minimum
        // duration before anything looks at the store
        self.regularize_events(now);
        let ghost s1 = self.events@;
        // the render model sees the working copy in place of its stored
        // version
        let inter_copy: Option<Event> = match &ctx.interacting {
            Some(ie) => Some(ie.event.duplicate()),
            None => None,
        };
        proof {
            assert(s1 =~= Seq::new(
                old(self).events@.len(),
                |i: int|
                    crate::schedule::regularized_one(
                        old(self).events@[i],
                        old(self).min_event_duration,
                        now,
                    ),
            ));
            lemma_combine_unique(self.events@, inter_copy);
        }
        let ghost interg = inter_copy;
        let combined = crate::mutation::combine_events(&self.events, inter_copy);
        proof {
            let base = self.events@.map_values(
                |e: Event| crate::mutation::CombinedEvent::ExistingEvent(e),
            );
            assert forall|i: int| 0 <= i < base.len() implies (#[trigger] base[i]).spec_event()
                == self.events@[i] by {}
            assert(combined@ == crate::mutation::combine_events_spec(self.events@, interg));
            assert(base.len() == self.events@.len());
            match interg {
                None => {
                    assert(combined@ == base);
                    assert(combined@.len() <= self.events@.len() + 1);
                    assert forall|i: int| 0 <= i < combined@.len() implies (
                    #[trigger] combined@[i]).spec_event().wf() by {
                        assert(combined@[i] == base[i]);
                        assert(base[i].spec_event() == self.events@[i]);
                    }
                },
                Some(ie) => {
                    assert(ie.wf());
                    crate::history::lemma_find_by_id(self.events@, ie.id@);
                    let k = find_by_id(self.events@, ie.id@);
                    if k >= 0 {
                        let up = base.update(
                            k,
                            crate::mutation::CombinedEvent::InteractingEvent(ie),
                        );
                        assert(combined@ == up);
                        assert(combined@.len() <= self.events@.len() + 1);
                        assert forall|i: int| 0 <= i < combined@.len() implies (
                        #[trigger] combined@[i]).spec_event().wf() by {
                            if i == k {
                                assert(combined@[i] == crate::mutation::CombinedEvent::InteractingEvent(ie));
                            } else {
                                assert(combined@[i] == base[i]);
                                assert(base[i].spec_event() == self.events@[i]);
                            }
                        }
                    } else {
                        let up = base.push(crate::mutation::CombinedEvent::InteractingEvent(ie));
                        assert(combined@ == up);
                        assert(combined@.len() <= self.events@.len() + 1);
                        assert forall|i: int| 0 <= i < combined@.len() implies (
                        #[trigger] combined@[i]).spec_event().wf() by {
                            if i < base.len() {
                                assert(combined@[i] == base[i]);
                                assert(base[i].spec_event() == self.events@[i]);
                            } else {
                                assert(combined@[i] == crate::mutation::CombinedEvent::InteractingEvent(ie));
                            }
                        }
                    }
                },
            }
            assert(combined@.len() <= self.events@.len() + 1);
            assert forall|i: int| 0 <= i < combined@.len() implies (
            #[trigger] combined@[i]).spec_event().wf() by {}
        }
        let layout = self.layout_events(&combined);
        self.drive_pointer(ctx, &input, &layout);
        self.drive_hotkeys(ctx, &input);
        // undo, then fold the finished gesture into the store
        self.handle_undo(input.undo_requested, now);
        let ghost h_mid = self.history.changes@;
        self.apply_interacting_events(ctx, now);
        proof {
            if !input.undo_requested {
                let h2 = self.history.changes@;
                assert(h_mid.is_prefix_of(h2)) by {
                    assert(h_mid =~= h2.subrange(0, h_mid.len() as int));
                }
                assert(old(self).history.changes@ == h_mid);
            }
        }
        let ghost s_pre = self.events@;
        crate::mutation::remove_empty_events(&mut self.events, now);
        proof {
            assert forall|a: int, b: int|
                0 <= a < b < self.events@.len() implies (#[trigger] self.events@[a]).id@ != (
            #[trigger] self.events@[b]).id@ by {
                assert(self.events@[a].id == s_pre[a].id);
                assert(self.events@[b].id == s_pre[b].id);
            }
            assert forall|a: int| 0 <= a < self.events@.len() implies (
            #[trigger] self.events@[a]).wf() by {
                assert(s_pre[a].wf());
            }
        }
        RenderModel { layout, events: combined }
    }
}

/// The change record committing a working copy against a store: a
/// modification of the stored event with the same id, or an addition when
/// the id is new.
pub open spec fn commit_change(s: Seq<Event>, ev: Event) -> Change {
    let i = find_by_id(s, ev.id@);
    if i >= 0 {
        Change::Modified { prior: s[i], new: ev }
    } else {
        Change::Added { new: ev }
    }
}

/// Applying any change whose events are well-formed keeps the store
/// well-formed: events stay well-formed, ids stay unique, and the length
/// grows by at most one.
pub proof fn lemma_apply_keeps_store_wf(c: Change, s: Seq<Event>, now: i64)
    requires
        store_wf(s),
        s.len() + 1 < 0x1000_0000,
        ts_valid(now),
        match c {
            Change::Added { new } => new.wf(),
            Change::Removed { prior } => true,
            Change::Modified { prior, new } => new.wf() && new.id@ == prior.id@,
        },
    ensures
        store_wf(apply_spec(c, s, now)),
{
    match c {
        Change::Added { new } => {
            crate::history::lemma_find_by_id(s, new.id@);
            let i = find_by_id(s, new.id@);
            let s1 = apply_spec(c, s, now);
            if i < 0 {
                assert forall|a: int, b: int|
                    0 <= a < b < s1.len() implies (#[trigger] s1[a]).id@ != (
                #[trigger] s1[b]).id@ by {
                    if b < s.len() {
                        assert(s1[a] == s[a] && s1[b] == s[b]);
                    } else {
                        assert(s1[a] == s[a]);
                        assert(s[a].id@ != new.id@);
                    }
                }
                assert forall|a: int| 0 <= a < s1.len() implies (#[trigger] s1[a]).wf() by {
                    if a < s.len() {
                        assert(s1[a] == s[a]);
                    }
                }
            } else {
                assert(s[i].id@ == new.id@);
                assert forall|a: int, b: int|
                    0 <= a < b < s1.len() implies (#[trigger] s1[a]).id@ != (
                #[trigger] s1[b]).id@ by {
                    assert(s1[a].id@ == s[a].id@ && s1[b].id@ == s[b].id@);
                }
                assert forall|a: int| 0 <= a < s1.len() implies (#[trigger] s1[a]).wf() by {
                    if a != i {
                        assert(s1[a] == s[a]);
                    }
                }
            }
        },
        Change::Removed { prior } => {
            crate::history::lemma_find_by_id(s, prior.id@);
            let i = find_by_id(s, prior.id@);
            let s1 = apply_spec(c, s, now);
            if i >= 0 {
                assert forall|a: int, b: int|
                    0 <= a < b < s1.len() implies (#[trigger] s1[a]).id@ != (
                #[trigger] s1[b]).id@ by {
                    assert(s1[a].id@ == s[a].id@ && s1[b].id@ == s[b].id@);
                }
                assert forall|a: int| 0 <= a < s1.len() implies (#[trigger] s1[a]).wf() by {
                    if a != i {
                        assert(s1[a] == s[a]);
                    }
                }
            }
        },
        Change::Modified { prior, new } => {
            crate::history::lemma_find_by_id(s, prior.id@);
            let i = find_by_id(s, prior.id@);
            let s1 = apply_spec(c, s, now);
            if i >= 0 {
                assert(s[i].id@ == prior.id@);
                assert forall|a: int, b: int|
                    0 <= a < b < s1.len() implies (#[trigger] s1[a]).id@ != (
                #[trigger] s1[b]).id@ by {
                    assert(s1[a].id@ == s[a].id@ && s1[b].id@ == s[b].id@);
                }
                assert forall|a: int| 0 <= a < s1.len() implies (#[trigger] s1[a]).wf() by {
                    if a != i {
                        assert(s1[a] == s[a]);
                    }
                }
            }
        },
    }
}

} // verus!
