//! The interaction classifier: disambiguates a raw pointer stream into
//! clicks and drags with a distance and a duration threshold, using one
//! boolean latch per gesture so a click or a drag start is reported only
//! once per press.

use vstd::prelude::*;

use crate::geom::Pos;

verus! {

/// A press that stays within this distance (pixels) of its origin can still
/// be a click.
pub const MAX_CLICK_DIST: i64 = 6;

/// A press that stays shorter than this (milliseconds) can still be a
/// click.
pub const MAX_CLICK_DURATION_MS: i64 = 600;

/// Largest toolkit clock value (milliseconds) the classifier accepts.
pub const CLOCK_MS_MAX: i64 = 0x10_0000_0000_0000;

/// One frame of raw pointer state, as the toolkit reports it for the
/// widget region being watched.
#[derive(Clone, Copy, Debug)]
pub struct PointerFrame {
    /// Some pointer button is held down.
    pub any_down: bool,
    /// The toolkit reported a completed click on the region this frame.
    pub clicked: bool,
    /// The region is being dragged this frame.
    pub dragged: bool,
    /// A drag over the region ended this frame.
    pub drag_released: bool,
    /// Where the current press started.
    pub press_origin: Option<Pos>,
    /// Where the pointer hovers now.
    pub hover_pos: Option<Pos>,
    /// The toolkit clock at this frame, in milliseconds.
    pub time_ms: i64,
    /// The toolkit clock when the current press started.
    pub press_start_ms: Option<i64>,
}

impl PointerFrame {
    /// The frame's coordinates and clocks lie in the working ranges, and a
    /// drag always has a press origin and a press start time.
    pub open spec fn wf(self) -> bool {
        &&& match self.press_origin {
            Some(p) => p.bounded(),
            None => true,
        }
        &&& match self.hover_pos {
            Some(p) => p.bounded(),
            None => true,
        }
        &&& 0 <= self.time_ms <= CLOCK_MS_MAX
        &&& match self.press_start_ms {
            Some(t) => 0 <= t <= CLOCK_MS_MAX,
            None => true,
        }
        &&& self.dragged ==> self.press_origin is Some && self.press_start_ms is Some
    }
}

/// A classified pointer gesture step.
#[derive(Clone, Copy, Debug, PartialEq, Eq, Structural)]
pub enum Interaction {
    /// Released without ever exceeding either threshold.
    Clicked,
    /// First frame on which a threshold was exceeded while the button was
    /// held; carries the press origin.
    DragStarted { origin: Pos },
    /// A continuation frame after the drag started.
    Dragged,
    /// The button was released after a drag.
    DragReleased,
}

/// The squared distance between two points.
pub open spec fn dist_sq(a: Pos, b: Pos) -> int {
    (a.x - b.x) * (a.x - b.x) + (a.y - b.y) * (a.y - b.y)
}

/// Whether this frame's pointer has moved past the click distance
/// threshold, or been held past the click duration threshold.
pub open spec fn drag_threshold_passed(f: PointerFrame) -> bool {
    let origin = f.press_origin->Some_0;
    let far = match f.hover_pos {
        Some(pos) => dist_sq(pos, origin) > MAX_CLICK_DIST * MAX_CLICK_DIST,
        None => false,
    };
    let long = match f.press_start_ms {
        Some(t0) => f.time_ms - t0 > MAX_CLICK_DURATION_MS,
        None => false,
    };
    far || long
}

/// The classifier's decision: what interaction this frame reports, and the
/// latch value after the frame. The latch starts false, is reset whenever
/// no button is held, and is set when a click or a drag start is reported,
/// so neither is reported twice for one press.
pub open spec fn classify(f: PointerFrame, latch_in: bool) -> (Option<Interaction>, bool) {
    let latch = if !f.any_down {
        false
    } else {
        latch_in
    };
    if !latch && f.clicked {
        (Some(Interaction::Clicked), true)
    } else if f.drag_released {
        (Some(Interaction::DragReleased), latch)
    } else if !latch && f.dragged {
        if drag_threshold_passed(f) {
            (Some(Interaction::DragStarted { origin: f.press_origin->Some_0 }), true)
        } else {
            (None, latch)
        }
    } else if latch && f.dragged {
        (Some(Interaction::Dragged), latch)
    } else {
        (None, latch)
    }
}

/// Classify one frame of pointer state, updating the per-gesture latch.
pub fn detect_interaction(f: &PointerFrame, latch: &mut bool) -> (r: Option<Interaction>)
    requires
        f.wf(),
    ensures
        (r, *final(latch)) == classify(*f, *old(latch)),
{
    if !f.any_down {
        *latch = false;
    }
    if !*latch && f.clicked {
        *latch = true;
        return Some(Interaction::Clicked);
    }
    if f.drag_released {
        return Some(Interaction::DragReleased);
    }
    if !*latch && f.dragged {
        let origin = match f.press_origin {
            Some(o) => o,
            None => {
                proof {
                    assert(false);
                }
                Pos { x: 0, y: 0 }
            },
        };
        let far = match f.hover_pos {
            Some(pos) => {
                let dx: i64 = pos.x - origin.x;
                let dy: i64 = pos.y - origin.y;
                proof {
                    assert(0 <= dx * dx <= 0x1000_0000_0000_0000 && 0 <= dy * dy
                        <= 0x1000_0000_0000_0000) by (nonlinear_arith)
                        requires
                            -0x4000_0000 <= dx <= 0x4000_0000,
                            -0x4000_0000 <= dy <= 0x4000_0000,
                    ;
                }
                dx * dx + dy * dy > MAX_CLICK_DIST * MAX_CLICK_DIST
            },
            None => false,
        };
        let long = match f.press_start_ms {
            Some(t0) => f.time_ms - t0 > MAX_CLICK_DURATION_MS,
            None => {
                proof {
                    assert(false);
                }
                false
            },
        };
        if far || long {
            *latch = true;
            return Some(Interaction::DragStarted { origin });
        }
        return None;
    }
    if *latch && f.dragged {
        return Some(Interaction::Dragged);
    }
    None
}

} // verus!
