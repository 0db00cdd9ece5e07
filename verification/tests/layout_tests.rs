//! Tests for the overlap layout engine.

use malakal::layout::{overlaps, Ev, Layout, MarkusAlgorithm, NaiveAlgorithm, Span};

fn ev(id: &str, start: i64, end: i64) -> Ev {
    Ev::new(id.to_string(), start, end)
}

#[test]
fn overlaps_is_strict() {
    assert!(overlaps(&ev("a", 0, 10), &ev("b", 5, 15)));
    assert!(overlaps(&ev("a", 5, 15), &ev("b", 0, 10)));
    // touching intervals do not overlap
    assert!(!overlaps(&ev("a", 0, 10), &ev("b", 10, 20)));
    assert!(!overlaps(&ev("a", 10, 20), &ev("b", 0, 10)));
    // nesting overlaps
    assert!(overlaps(&ev("a", 0, 100), &ev("b", 40, 60)));
}

#[test]
fn three_overlapping_events_pack_into_two_columns() {
    // 09:00-10:00, 09:30-10:30, 10:00-11:00 on the same day: the first two
    // overlap, the third overlaps only the second and reuses column 0
    let events = vec![
        ev("e1", 32400, 36000),
        ev("e2", 34200, 37800),
        ev("e3", 36000, 39600),
    ];
    let layout = MarkusAlgorithm::compute(events);
    let s1 = layout.query(&"e1".to_string()).unwrap();
    let s2 = layout.query(&"e2".to_string()).unwrap();
    let s3 = layout.query(&"e3".to_string()).unwrap();
    assert_eq!(s1, Span { col: 0, width: 2 });
    assert_eq!(s2, Span { col: 1, width: 2 });
    assert_eq!(s3, Span { col: 0, width: 2 });
}

#[test]
fn disjoint_events_each_get_the_full_column() {
    let events = vec![ev("a", 0, 10), ev("b", 20, 30), ev("c", 40, 50)];
    let layout = MarkusAlgorithm::compute(events);
    for id in ["a", "b", "c"] {
        let s = layout.query(&id.to_string()).unwrap();
        assert_eq!(s, Span { col: 0, width: 1 });
    }
}

#[test]
fn chain_of_overlaps_forms_one_group() {
    // a overlaps b, b overlaps c, but a and c do not overlap: all three are
    // one group of width two, and a and c share column 0
    let events = vec![ev("a", 0, 10), ev("b", 5, 15), ev("c", 10, 20)];
    let layout = MarkusAlgorithm::compute(events);
    let sa = layout.query(&"a".to_string()).unwrap();
    let sb = layout.query(&"b".to_string()).unwrap();
    let sc = layout.query(&"c".to_string()).unwrap();
    assert_eq!(sa, Span { col: 0, width: 2 });
    assert_eq!(sb, Span { col: 1, width: 2 });
    assert_eq!(sc, Span { col: 0, width: 2 });
}

#[test]
fn three_way_overlap_needs_three_columns() {
    let events = vec![ev("a", 0, 100), ev("b", 10, 90), ev("c", 20, 80)];
    let layout = MarkusAlgorithm::compute(events);
    let sa = layout.query(&"a".to_string()).unwrap();
    let sb = layout.query(&"b".to_string()).unwrap();
    let sc = layout.query(&"c".to_string()).unwrap();
    assert_eq!(sa, Span { col: 0, width: 3 });
    assert_eq!(sb, Span { col: 1, width: 3 });
    assert_eq!(sc, Span { col: 2, width: 3 });
}

#[test]
fn every_span_is_well_formed() {
    let events = vec![
        ev("a", 0, 50),
        ev("b", 10, 30),
        ev("c", 25, 60),
        ev("d", 55, 70),
        ev("e", 100, 120),
    ];
    let layout = MarkusAlgorithm::compute(events);
    for id in ["a", "b", "c", "d", "e"] {
        let s = layout.query(&id.to_string()).unwrap();
        // 0 <= col/width < (col+1)/width <= 1
        assert!(s.col < s.width);
    }
}

#[test]
fn query_misses_unknown_ids() {
    let layout = MarkusAlgorithm::compute(vec![ev("a", 0, 10)]);
    assert!(layout.query(&"b".to_string()).is_none());
}

#[test]
fn merge_folds_two_days_together() {
    let mut day0 = MarkusAlgorithm::compute(vec![ev("a", 0, 10)]);
    let day1 = MarkusAlgorithm::compute(vec![ev("b", 86400, 86500), ev("c", 86450, 86600)]);
    day0.merge(day1);
    assert_eq!(day0.query(&"a".to_string()).unwrap(), Span { col: 0, width: 1 });
    assert_eq!(day0.query(&"b".to_string()).unwrap(), Span { col: 0, width: 2 });
    assert_eq!(day0.query(&"c".to_string()).unwrap(), Span { col: 1, width: 2 });
}

#[test]
fn empty_layout_has_no_entries() {
    let layout = Layout::new();
    assert!(layout.query(&"a".to_string()).is_none());
}

#[test]
fn the_naive_variant_covers_every_event() {
    let events = vec![
        ev("e1", 32400, 36000),
        ev("e2", 34200, 37800),
        ev("e3", 36000, 39600),
    ];
    let layout = NaiveAlgorithm::compute(events);
    // the first query groups e1 and e2; e3 reuses e2's group and, true to
    // this variant's weaker guarantee, lands in e2's column
    assert_eq!(layout.query(&"e1".to_string()).unwrap(), Span { col: 0, width: 2 });
    assert_eq!(layout.query(&"e2".to_string()).unwrap(), Span { col: 1, width: 2 });
    assert_eq!(layout.query(&"e3".to_string()).unwrap(), Span { col: 1, width: 2 });
}

#[test]
fn the_naive_variant_separates_disjoint_events() {
    let events = vec![ev("a", 0, 10), ev("b", 20, 30)];
    let layout = NaiveAlgorithm::compute(events);
    assert_eq!(layout.query(&"a".to_string()).unwrap(), Span { col: 0, width: 1 });
    assert_eq!(layout.query(&"b".to_string()).unwrap(), Span { col: 0, width: 1 });
}
