//! Tests for the schedule engine: temporal mapping, mutation rules, store
//! operations, dates, and the trusted bindings.

use malakal::dates::{beginning_of_month, days_in_month, end_of_month, month_offset, same_month,
                     CivilDate};
use malakal::event::{Color, Event};
use malakal::geom::Pos;
use malakal::mutation::{move_event, move_event_end, move_event_start, remove_empty_events};
use malakal::schedule::ScheduleUi;
use malakal::storage::LocalDir;
use malakal::trusted::shared;
use malakal::util::{on_the_same_day, reorder_times};

fn engine() -> ScheduleUi {
    ScheduleUi::new(0, 3, 0, "cal".to_string(), None)
}

fn event(id: &str, start: i64, end: i64) -> Event {
    Event {
        id: id.to_string(),
        calendar: "cal".to_string(),
        title: format!("event {id}"),
        description: None,
        start,
        end,
        timestamp: 0,
        created_at: 0,
        modified_at: 0,
        color: Color { red: 1, green: 2, blue: 3 },
        changed: false,
        deleted: false,
    }
}

#[test]
fn snapped_pointer_time_is_a_multiple_of_the_granularity() {
    let ui = engine();
    // content height is 24 segments of 80 px = 1920 px; snapping is 900 s
    for y in [0, 1, 477, 960, 1126, 1919, 1920, 5000] {
        let t = ui
            .pointer_pos_to_datetime_snapping(Pos { x: 10, y })
            .unwrap();
        assert_eq!((t % 86400) % 900, 0, "y = {y}");
    }
    // 14:05 floors to 14:00
    assert_eq!(
        ui.pointer_pos_to_datetime_snapping(Pos { x: 10, y: 1126 }),
        Some(50400)
    );
    // the bottom edge snaps to the next midnight
    assert_eq!(
        ui.pointer_pos_to_datetime_snapping(Pos { x: 10, y: 5000 }),
        Some(86400)
    );
    // outside the day columns there is no time
    assert_eq!(ui.pointer_pos_to_datetime_snapping(Pos { x: -1, y: 100 }), None);
    assert_eq!(ui.pointer_pos_to_datetime_snapping(Pos { x: 780, y: 100 }), None);
    assert_eq!(ui.pointer_pos_to_datetime_snapping(Pos { x: 10, y: -1 }), None);
}

#[test]
fn exact_pointer_time_rounds_to_whole_minutes() {
    let ui = engine();
    // mid-grid: noon
    assert_eq!(ui.pointer_pos_to_datetime(Pos { x: 10, y: 960 }), Some(43200));
    // 14:05 on the second day
    assert_eq!(
        ui.pointer_pos_to_datetime(Pos { x: 300, y: 1126 }),
        Some(86400 + 50700)
    );
    // the exact variant requires the pointer strictly inside the grid
    assert_eq!(ui.pointer_pos_to_datetime(Pos { x: 10, y: 0 }), None);
    assert_eq!(ui.pointer_pos_to_datetime(Pos { x: 10, y: 1920 }), None);
    for y in [1, 333, 959, 1919] {
        let t = ui.pointer_pos_to_datetime(Pos { x: 10, y }).unwrap();
        assert_eq!(t % 60, 0, "y = {y}");
    }
}

#[test]
fn snap_to_nearest_rounds_half_up() {
    let ui = engine();
    assert_eq!(ui.snap_to_nearest(50700), 50400); // 14:05 -> 14:00
    assert_eq!(ui.snap_to_nearest(50850), 51300); // 14:07:30 -> 14:15
    assert_eq!(ui.snap_to_nearest(51000), 51300); // 14:10 -> 14:15
    assert_eq!(ui.snap_to_nearest(51300), 51300);
}

#[test]
fn resize_below_minimum_duration_is_rejected() {
    // moving an event's end one minute before its start leaves it unchanged
    let mut e = event("a", 32400, 36000);
    move_event_end(&mut e, 32340, 900, 1000);
    assert_eq!(e.start, 32400);
    assert_eq!(e.end, 36000);
    assert!(!e.changed);
}

#[test]
fn resize_keeps_the_minimum_duration() {
    let mut e = event("a", 32400, 36000);
    move_event_end(&mut e, 33300, 900, 1000);
    assert_eq!(e.end, 33300);
    assert!(e.end - e.start >= 900);
    assert!(e.changed);
    assert_eq!(e.modified_at, 1000);

    let mut f = event("b", 32400, 36000);
    move_event_start(&mut f, 35100, 900, 1000);
    assert_eq!(f.start, 35100);
    assert!(f.end - f.start >= 900);
    assert!(f.changed);
}

#[test]
fn resize_to_the_current_value_marks_nothing() {
    let mut e = event("a", 32400, 36000);
    move_event_end(&mut e, 36000, 900, 1000);
    assert!(!e.changed);
    move_event_start(&mut e, 32400, 900, 1000);
    assert!(!e.changed);
}

#[test]
fn moves_crossing_a_day_boundary_are_rejected() {
    // shifting 09:00-10:00 to start at 23:30 would end at 00:30 next day
    let mut e = event("a", 32400, 36000);
    move_event(&mut e, 84600, 1000);
    assert_eq!((e.start, e.end), (32400, 36000));
    assert!(!e.changed);

    // resizing the end into the next day is rejected too
    let mut f = event("b", 32400, 36000);
    move_event_end(&mut f, 90000, 900, 1000);
    assert_eq!(f.end, 36000);
    assert!(!f.changed);

    // but ending exactly on the next midnight is a single-day event
    let mut g = event("c", 32400, 36000);
    move_event_end(&mut g, 86400, 900, 1000);
    assert_eq!(g.end, 86400);
    assert!(g.changed);
}

#[test]
fn moving_preserves_the_duration() {
    let mut e = event("a", 32400, 36000);
    move_event(&mut e, 39600, 1000);
    assert_eq!((e.start, e.end), (39600, 43200));
    assert!(e.changed);
}

#[test]
fn same_day_allows_the_following_midnight() {
    assert!(on_the_same_day(32400, 36000));
    assert!(on_the_same_day(32400, 86400));
    assert!(!on_the_same_day(32400, 86401));
    assert!(!on_the_same_day(32400, 86400 + 32400));
    assert!(on_the_same_day(86400, 86400));
}

#[test]
fn reorder_times_swaps_only_when_out_of_order() {
    let mut a = 10i64;
    let mut b = 20i64;
    assert!(!reorder_times(&mut a, &mut b));
    assert_eq!((a, b), (10, 20));
    let mut c = 30i64;
    let mut d = 20i64;
    assert!(reorder_times(&mut c, &mut d));
    assert_eq!((c, d), (20, 30));
}

#[test]
fn window_queries_follow_the_first_day() {
    let mut ui = ScheduleUi::new(19000, 3, 0, "cal".to_string(), None);
    assert_eq!(ui.time_range(), (19000 * 86400, 19003 * 86400));
    assert_eq!(ui.visible_dates(), vec![19000, 19001, 19002]);
    assert!(ui.is_visible(19000 * 86400));
    assert!(ui.is_visible(19002 * 86400 + 86399));
    assert!(!ui.is_visible(19003 * 86400));
    assert_eq!(ui.date_to_day(19001), Some(1));
    assert_eq!(ui.date_to_day(18999), None);
    ui.scroll_horizontally(2);
    assert_eq!(ui.first_day, 19002);
    assert!(ui.scope_updated);
}

#[test]
fn geometry_follows_the_engine_defaults() {
    let ui = engine();
    assert_eq!(ui.content_height(), 1920);
    assert_eq!(ui.content_width(), 780);
    let col = ui.day_column(1);
    assert_eq!((col.x0, col.y0, col.x1, col.y1), (260, 0, 520, 1920));
    assert_eq!(ui.desired_size(8), (868, 1998));
    assert_eq!(ui.scroll_position(43200), 1020);
    assert_eq!(ui.time_marker_time(1, 0), Some(3600));
    assert_eq!(ui.time_marker_time(24, 0), Some(86400));
    assert_eq!(ui.time_marker_time(25, 0), None);
}

#[test]
fn refit_picks_a_day_count_between_the_width_bounds() {
    let mut ui = engine();
    ui.refit_into_ui(868, 8);
    assert_eq!(ui.day_count, 5);
    assert_eq!(ui.day_width, 156);
    assert!(ui.scope_updated);
}

#[test]
fn load_events_clears_the_history() {
    let mut ui = engine();
    ui.events.push(event("a", 32400, 36000));
    ui.history.save(malakal::history::Change::Added { new: event("a", 32400, 36000) });
    ui.load_events(vec![event("b", 40000, 44000)]);
    assert_eq!(ui.events.len(), 1);
    assert_eq!(ui.events[0].id, "b");
    assert_eq!(ui.history.changes.len(), 0);
}

#[test]
fn regularize_widens_short_events_and_drops_empty_titles() {
    let mut ui = engine();
    ui.events.push(event("a", 32400, 32500));
    let mut empty = event("b", 40000, 44000);
    empty.title = String::new();
    ui.events.push(empty);
    ui.regularize_events(1000);
    assert_eq!(ui.events[0].end, 33400);
    assert!(ui.events[0].end - ui.events[0].start >= 900);
    assert!(ui.events[1].deleted);
}

#[test]
fn finish_flush_drops_deleted_events_and_clears_flags() {
    let mut ui = engine();
    let mut a = event("a", 32400, 36000);
    a.changed = true;
    let mut b = event("b", 40000, 44000);
    b.deleted = true;
    ui.events.push(a);
    ui.events.push(b);
    ui.finish_flush();
    assert_eq!(ui.events.len(), 1);
    assert_eq!(ui.events[0].id, "a");
    assert!(!ui.events[0].changed);
    assert!(!ui.events[0].deleted);
}

#[test]
fn remove_empty_events_marks_them_deleted() {
    let mut events = vec![event("a", 0, 900)];
    events[0].title = String::new();
    remove_empty_events(&mut events, 77);
    assert!(events[0].deleted);
    assert_eq!(events[0].modified_at, 77);
}

#[test]
fn event_path_joins_directory_id_and_suffix() {
    let dir = LocalDir::new("/tmp/cal".to_string(), "work".to_string());
    assert_eq!(dir.event_path(&"abc".to_string()), "/tmp/cal/abc.ics");
}

#[test]
fn month_arithmetic_knows_the_calendar() {
    assert_eq!(days_in_month(2024, 2), 29);
    assert_eq!(days_in_month(2023, 2), 28);
    assert_eq!(days_in_month(1900, 2), 28);
    assert_eq!(days_in_month(2000, 2), 29);
    assert_eq!(days_in_month(2022, 4), 30);
    assert_eq!(days_in_month(2022, 12), 31);

    let d = CivilDate { year: 2022, month: 5, day: 10 };
    assert_eq!(beginning_of_month(d), CivilDate { year: 2022, month: 5, day: 1 });
    assert_eq!(end_of_month(d), CivilDate { year: 2022, month: 5, day: 31 });
    assert!(same_month(d, CivilDate { year: 2022, month: 5, day: 31 }));
    assert!(!same_month(d, CivilDate { year: 2022, month: 6, day: 1 }));

    assert_eq!(month_offset(d, 0), d);
    assert_eq!(month_offset(d, 1), CivilDate { year: 2022, month: 6, day: 1 });
    assert_eq!(month_offset(d, 8), CivilDate { year: 2023, month: 1, day: 1 });
    assert_eq!(month_offset(d, -1), CivilDate { year: 2022, month: 4, day: 30 });
    assert_eq!(month_offset(d, -5), CivilDate { year: 2021, month: 12, day: 31 });
}

#[test]
fn new_events_carry_fresh_identities() {
    let ui = engine();
    let a = ui.new_event(1000);
    let b = ui.new_event(1000);
    assert_eq!(a.id.len(), 36);
    assert_eq!(b.id.len(), 36);
    assert_ne!(a.id, b.id);
    assert_eq!(a.calendar, "cal");
    assert_eq!(a.title, "");
    assert_eq!(a.start, 0);
    assert_eq!(a.end, 900);
    assert!(a.changed);

    let c = ui.clone_to_new_event(&a, 2000);
    assert_ne!(c.id, a.id);
    assert_eq!(c.id.len(), 36);
    assert_eq!((c.start, c.end), (a.start, a.end));
    assert_eq!(c.modified_at, 2000);
}

#[test]
fn the_clock_reports_a_time_after_the_epoch() {
    let mut ui = engine();
    ui.update_current_time();
    let t = ui.current_time.unwrap();
    assert!(t > 1_000_000);
    let y = ui.scroll_position_for_now();
    assert!(y >= 0);
}

#[test]
fn shared_values_come_back_through_the_lock() {
    let s = shared(7i32);
    assert_eq!(*s.lock().unwrap(), 7);
    let t = s.clone();
    *t.lock().unwrap() = 9;
    assert_eq!(*s.lock().unwrap(), 9);
}
