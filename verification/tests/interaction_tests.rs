//! Tests for the interaction classifier, the gesture state machine, the
//! edit history, and the per-frame entry point.

use malakal::classifier::{detect_interaction, Interaction, PointerFrame};
use malakal::event::{Color, Event};
use malakal::geom::{Pos, Rect};
use malakal::history::Change;
use malakal::interaction::{DirectionKeys, FocusedEventState, FrameInput, InteractionContext};
use malakal::mutation::{
    find_adjacent_event, find_juxtaposed_event, find_nearest_event, Direction,
};
use malakal::schedule::ScheduleUi;

fn engine() -> ScheduleUi {
    ScheduleUi::new(0, 3, 0, "cal".to_string(), Some(43200))
}

fn event(id: &str, start: i64, end: i64) -> Event {
    Event {
        id: id.to_string(),
        calendar: "cal".to_string(),
        title: format!("event {id}"),
        description: None,
        start,
        end,
        timestamp: 0,
        created_at: 0,
        modified_at: 0,
        color: Color { red: 1, green: 2, blue: 3 },
        changed: false,
        deleted: false,
    }
}

fn idle_frame() -> PointerFrame {
    PointerFrame {
        any_down: false,
        clicked: false,
        dragged: false,
        drag_released: false,
        press_origin: None,
        hover_pos: None,
        time_ms: 0,
        press_start_ms: None,
    }
}

fn click_frame() -> PointerFrame {
    PointerFrame { clicked: true, ..idle_frame() }
}

fn drag_frame(origin: Pos, hover: Pos, held_ms: i64) -> PointerFrame {
    PointerFrame {
        any_down: true,
        dragged: true,
        press_origin: Some(origin),
        hover_pos: Some(hover),
        time_ms: held_ms,
        press_start_ms: Some(0),
        ..idle_frame()
    }
}

fn idle_input(now: i64) -> FrameInput {
    let keys = DirectionKeys { up: false, down: false, left: false, right: false };
    FrameInput {
        pointer: idle_frame(),
        pointer_pos: None,
        anything_dragged: false,
        ctrl_held: false,
        shift_held: false,
        escape_pressed: false,
        editor_finished: None,
        hovered_event: None,
        focused_event: None,
        enter_pressed: false,
        new_key_pressed: false,
        delete_pressed: false,
        undo_requested: false,
        direction_keys: keys,
        ctrl_direction_keys: keys,
        shift_direction_keys: keys,
        now,
    }
}

#[test]
fn quick_small_clicks_classify_as_clicks() {
    // movement under 6 px and duration under 0.6 s is a click
    let mut latch = false;
    let r = detect_interaction(&click_frame(), &mut latch);
    assert_eq!(r, Some(Interaction::Clicked));
    assert!(latch);
}

#[test]
fn slow_or_far_presses_classify_as_drag_starts() {
    // held past 600 ms with tiny movement
    let mut latch = false;
    let slow = drag_frame(Pos { x: 50, y: 50 }, Pos { x: 52, y: 51 }, 700);
    let r = detect_interaction(&slow, &mut latch);
    assert_eq!(r, Some(Interaction::DragStarted { origin: Pos { x: 50, y: 50 } }));
    assert!(latch);

    // moved past 6 px quickly
    let mut latch2 = false;
    let far = drag_frame(Pos { x: 50, y: 50 }, Pos { x: 70, y: 70 }, 100);
    let r2 = detect_interaction(&far, &mut latch2);
    assert_eq!(r2, Some(Interaction::DragStarted { origin: Pos { x: 50, y: 50 } }));

    // neither threshold passed yet: nothing is reported
    let mut latch3 = false;
    let near = drag_frame(Pos { x: 50, y: 50 }, Pos { x: 52, y: 51 }, 100);
    assert_eq!(detect_interaction(&near, &mut latch3), None);
    assert!(!latch3);
}

#[test]
fn the_latch_reports_each_gesture_once() {
    let mut latch = false;
    let far = drag_frame(Pos { x: 0, y: 0 }, Pos { x: 30, y: 0 }, 100);
    assert_eq!(
        detect_interaction(&far, &mut latch),
        Some(Interaction::DragStarted { origin: Pos { x: 0, y: 0 } })
    );
    // continuation frames report plain drags
    assert_eq!(detect_interaction(&far, &mut latch), Some(Interaction::Dragged));
    // release
    let released = PointerFrame { drag_released: true, ..idle_frame() };
    assert_eq!(
        detect_interaction(&released, &mut latch),
        Some(Interaction::DragReleased)
    );
    // no button held: the latch resets, the next click is reported again
    assert_eq!(detect_interaction(&click_frame(), &mut latch), Some(Interaction::Clicked));
}

#[test]
fn clicking_an_event_block_opens_the_editor() {
    // scenario: a click on an existing event transitions to editing
    let ui = engine();
    let mut ctx = InteractionContext::new();
    let rect = Rect { x0: 0, y0: 0, x1: 100, y1: 100 };
    let r = ui.interact_event_region(
        &mut ctx,
        &click_frame(),
        Some(Pos { x: 50, y: 50 }),
        rect,
        false,
    );
    assert_eq!(r, Some(FocusedEventState::Editing));
}

#[test]
fn dragging_an_event_body_grabs_the_whole_event() {
    // scenario: a slow drag on the same event transitions to dragging
    let ui = engine();
    let mut ctx = InteractionContext::new();
    let rect = Rect { x0: 0, y0: 0, x1: 100, y1: 100 };
    let slow = drag_frame(Pos { x: 50, y: 50 }, Pos { x: 52, y: 51 }, 700);
    let r = ui.interact_event_region(&mut ctx, &slow, Some(Pos { x: 50, y: 50 }), rect, false);
    assert_eq!(r, Some(FocusedEventState::Dragging));
    // the grab offset between the event top and the press is remembered
    assert_eq!(ctx.drag_y_offset, Some(-50));
}

#[test]
fn dragging_the_handles_grabs_the_edges() {
    let ui = engine();
    let rect = Rect { x0: 0, y0: 0, x1: 100, y1: 100 };
    // the upper handle spans [20, 80) x [0, 5)
    let mut ctx = InteractionContext::new();
    let top = drag_frame(Pos { x: 50, y: 2 }, Pos { x: 50, y: 30 }, 100);
    let r = ui.interact_event_region(&mut ctx, &top, Some(Pos { x: 50, y: 2 }), rect, false);
    assert_eq!(r, Some(FocusedEventState::DraggingEventStart));

    let mut ctx2 = InteractionContext::new();
    let bottom = drag_frame(Pos { x: 50, y: 97 }, Pos { x: 50, y: 60 }, 100);
    let r2 = ui.interact_event_region(&mut ctx2, &bottom, Some(Pos { x: 50, y: 97 }), rect, false);
    assert_eq!(r2, Some(FocusedEventState::DraggingEventEnd));
}

#[test]
fn modifier_drags_clone_the_event() {
    let ui = engine();
    let mut ctx = InteractionContext::new();
    let rect = Rect { x0: 0, y0: 0, x1: 100, y1: 100 };
    let slow = drag_frame(Pos { x: 50, y: 50 }, Pos { x: 52, y: 51 }, 700);
    let r = ui.interact_event_region(&mut ctx, &slow, Some(Pos { x: 50, y: 50 }), rect, true);
    assert_eq!(r, Some(FocusedEventState::EventCloning));
}

#[test]
fn drag_creating_snaps_the_anchor_and_sizes_the_minimum() {
    // scenario: drag-creating from 14:05 snapped to the 15-minute grid
    // yields start 14:00 and end 15 minutes later
    let ui = engine();
    let mut ctx = InteractionContext::new();
    // y = 1126 px maps to 14:05; snapping floors it to 14:00
    let press = drag_frame(Pos { x: 10, y: 1126 }, Pos { x: 10, y: 1126 }, 700);
    ui.handle_new_event(&mut ctx, &press, Some(Pos { x: 10, y: 1126 }), true, 1000);
    let ie = ctx.interacting.as_ref().unwrap();
    assert_eq!(ie.event.start, 50400);
    assert_eq!(ie.event.end, 50400 + 900);
    assert_eq!(ie.event.title, "");
    assert_eq!(ie.event.id.len(), 36);
    assert!(ctx.new_event_gesture.is_some());

    // dragging down to 15:00 moves the end
    let drag = drag_frame(Pos { x: 10, y: 1126 }, Pos { x: 10, y: 1210 }, 900);
    ui.handle_new_event(&mut ctx, &drag, Some(Pos { x: 10, y: 1210 }), true, 1000);
    let ie2 = ctx.interacting.as_ref().unwrap();
    assert_eq!(ie2.event.start, 50400);
    assert_eq!(ie2.event.end, 54000);
    assert_eq!(ie2.state, FocusedEventState::DraggingEventEnd);

    // releasing switches to the title editor
    let released = PointerFrame { drag_released: true, any_down: true, ..idle_frame() };
    ui.handle_new_event(&mut ctx, &released, Some(Pos { x: 10, y: 1210 }), true, 1000);
    assert_eq!(ctx.interacting.as_ref().unwrap().state, FocusedEventState::Editing);
}

#[test]
fn clicking_empty_canvas_discards_the_gesture() {
    let ui = engine();
    let mut ctx = InteractionContext::new();
    ctx.set_interacting(event("a", 32400, 36000), FocusedEventState::Editing);
    ui.handle_new_event(&mut ctx, &click_frame(), Some(Pos { x: 10, y: 500 }), true, 1000);
    assert!(ctx.interacting.is_none());
}

#[test]
fn commit_and_undo_restore_a_modification() {
    // the undo round trip for a modification
    let mut ui = engine();
    ui.events.push(event("a", 32400, 36000));
    let mut ctx = InteractionContext::new();
    let mut edited = event("a", 32400, 36000);
    edited.title = "renamed".to_string();
    ctx.committed = Some(edited);
    ui.apply_interacting_events(&mut ctx, 1000);
    assert_eq!(ui.events[0].title, "renamed");
    assert_eq!(ui.history.changes.len(), 1);
    assert!(ctx.refocus.is_some());

    ui.handle_undo(true, 2000);
    assert_eq!(ui.events[0].title, "event a");
    assert_eq!((ui.events[0].start, ui.events[0].end), (32400, 36000));
    assert_eq!(ui.history.changes.len(), 0);

    // undo on an empty history is a no-op
    ui.handle_undo(true, 3000);
    assert_eq!(ui.events.len(), 1);
}

#[test]
fn commit_and_undo_remove_an_addition() {
    // the undo round trip for an addition: the event leaves the live store
    let mut ui = engine();
    let mut ctx = InteractionContext::new();
    ctx.committed = Some(event("fresh", 32400, 36000));
    ui.apply_interacting_events(&mut ctx, 1000);
    assert_eq!(ui.events.len(), 1);
    assert!(!ui.events[0].deleted);

    ui.handle_undo(true, 2000);
    assert_eq!(ui.events.len(), 1);
    assert!(ui.events[0].deleted);
}

#[test]
fn delete_and_undo_revive_the_event() {
    // the undo round trip for a removal
    let mut ui = engine();
    ui.events.push(event("a", 32400, 36000));
    let mut ctx = InteractionContext::new();
    ctx.set_deleted(&"a".to_string());
    ui.apply_interacting_events(&mut ctx, 1000);
    assert!(ui.events[0].deleted);

    ui.handle_undo(true, 2000);
    assert_eq!(ui.events.len(), 1);
    assert!(!ui.events[0].deleted);
    assert_eq!(ui.events[0].title, "event a");
    assert_eq!((ui.events[0].start, ui.events[0].end), (32400, 36000));
}

#[test]
fn change_reverse_swaps_addition_and_removal() {
    let a = event("a", 0, 900);
    match (Change::Added { new: a.clone() }).reverse() {
        Change::Removed { prior } => assert_eq!(prior.id, "a"),
        _ => panic!("expected a removal"),
    }
    match (Change::Removed { prior: a.clone() }).reverse() {
        Change::Added { new } => assert_eq!(new.id, "a"),
        _ => panic!("expected an addition"),
    }
    let b = event("b", 0, 900);
    match (Change::Modified { prior: a.clone(), new: b.clone() }).reverse() {
        Change::Modified { prior, new } => {
            assert_eq!(prior.id, "b");
            assert_eq!(new.id, "a");
        },
        _ => panic!("expected a modification"),
    }
}

#[test]
fn focus_searches_walk_the_store() {
    let events = vec![
        event("a", 32400, 36000),
        event("b", 86400 + 32400, 86400 + 36000),
        event("c", 40000, 44000),
    ];
    // nearest to noon of day 0 is c (40000)
    assert_eq!(find_nearest_event(&events, 43200), Some("c".to_string()));
    // a day to the right of a lives b
    assert_eq!(find_juxtaposed_event(&"a".to_string(), 1, &events), Some("b".to_string()));
    // same-day neighbours do not count as a sideways move
    assert_eq!(find_juxtaposed_event(&"c".to_string(), 1, &events), Some("b".to_string()));
    // adjacency walks the store order
    assert_eq!(find_adjacent_event(&"a".to_string(), 1, &events), Some("b".to_string()));
    assert_eq!(find_adjacent_event(&"a".to_string(), -1, &events), None);
    assert_eq!(find_adjacent_event(&"zz".to_string(), 1, &events), None);
}

#[test]
fn keyboard_navigation_respects_the_gesture_in_progress() {
    let ui = engine();
    let keys = DirectionKeys { up: false, down: true, left: true, right: false };
    assert_eq!(ui.key_direction_input(false, keys), Some(Direction::Down));
    assert_eq!(ui.key_direction_input(true, keys), None);
    let keys2 = DirectionKeys { up: false, down: false, left: true, right: true };
    assert_eq!(ui.key_direction_input(false, keys2), Some(Direction::Left));
}

#[test]
fn keyboard_event_creation_starts_after_todays_last_event() {
    let ui = engine();
    let mut ctx = InteractionContext::new();
    let mut ui2 = ui;
    ui2.events.push(event("a", 32400, 36000));
    // now is noon of day 0; the last event today ends at 10:00
    let r = ui2.handle_keyboard_new_event(&mut ctx, true, 43200, 1000);
    assert!(r.is_some());
    let ie = ctx.interacting.as_ref().unwrap();
    assert_eq!(ie.state, FocusedEventState::Editing);
    assert_eq!(ie.event.start, 36000);
    assert_eq!(ie.event.end, 36900);
}

#[test]
fn keyboard_delete_requests_removal_of_the_focused_event() {
    let ui = engine();
    let mut ctx = InteractionContext::new();
    ui.handle_keyboard_delete_event(&mut ctx, Some(&"a".to_string()), true);
    assert_eq!(ctx.deleted, Some("a".to_string()));
}

#[test]
fn keyboard_moves_and_resizes_go_through_the_guards() {
    let mut ui = engine();
    ui.events.push(event("a", 32400, 36000));
    ui.handle_keyboard_focused_event_move(&"a".to_string(), Direction::Down, 1000);
    assert_eq!((ui.events[0].start, ui.events[0].end), (33300, 36900));
    ui.handle_keyboard_focused_event_move(&"a".to_string(), Direction::Right, 1000);
    assert_eq!((ui.events[0].start, ui.events[0].end), (86400 + 33300, 86400 + 36900));
    ui.handle_keyboard_focused_event_resize(&"a".to_string(), Direction::Up, 1000);
    assert_eq!(ui.events[0].end, 86400 + 36000);
    // resizing below the minimum is rejected
    let mut tight = engine();
    tight.events.push(event("b", 32400, 33300));
    tight.handle_keyboard_focused_event_resize(&"b".to_string(), Direction::Up, 1000);
    assert_eq!(tight.events[0].end, 33300);
}

#[test]
fn one_frame_lays_out_the_store_for_the_renderer() {
    let mut ui = engine();
    ui.events.push(event("a", 32400, 36000));
    ui.events.push(event("b", 34200, 37800));
    let mut ctx = InteractionContext::new();
    let model = ui.advance(&mut ctx, idle_input(1000));
    assert_eq!(model.events.len(), 2);
    let sa = model.layout.query(&"a".to_string()).unwrap();
    let sb = model.layout.query(&"b".to_string()).unwrap();
    assert_eq!(sa.width, 2);
    assert_eq!(sb.width, 2);
    assert_ne!(sa.col, sb.col);
    assert_eq!(ui.events.len(), 2);
}

#[test]
fn a_frame_with_the_undo_chord_undoes_the_last_commit() {
    let mut ui = engine();
    ui.events.push(event("a", 32400, 36000));
    let mut ctx = InteractionContext::new();
    let mut edited = event("a", 32400, 36000);
    edited.title = "renamed".to_string();
    ctx.committed = Some(edited);
    ui.advance(&mut ctx, idle_input(1000));
    assert_eq!(ui.events[0].title, "renamed");
    let undo = FrameInput { undo_requested: true, ..idle_input(2000) };
    ui.advance(&mut ctx, undo);
    assert_eq!(ui.events[0].title, "event a");
}
