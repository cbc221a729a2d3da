use traccar::json::{JsonDocument, JsonEntry, JsonKind};
use traccar::report::{
    engine_hours_total, motion_flags, position_motion, stop_spans, summary_totals, trip_spans, Span,
};

fn position(motion: Option<bool>, hours: Option<&str>) -> JsonDocument {
    let mut entries = vec![JsonEntry { path: vec![], kind: JsonKind::Object }];
    if let Some(m) = motion {
        entries.push(JsonEntry {
            path: vec!["attributes".to_string(), "motion".to_string()],
            kind: JsonKind::Bool(m),
        });
    }
    if let Some(h) = hours {
        entries.push(JsonEntry {
            path: vec!["attributes".to_string(), "hours".to_string()],
            kind: JsonKind::Number(h.to_string()),
        });
    }
    JsonDocument { entries }
}

#[test]
fn report_motion_defaults_to_false() {
    assert!(position_motion(&position(Some(true), None)));
    assert!(!position_motion(&position(Some(false), None)));
    assert!(!position_motion(&position(None, None)));
    let flags = motion_flags(&vec![position(Some(true), None), position(None, None)]);
    assert_eq!(flags, vec![true, false]);
}

#[test]
fn report_stops_are_runs_without_motion() {
    let m = vec![false, false, true, true, false, true, false, false];
    assert_eq!(
        stop_spans(&m),
        vec![
            Span { start: 0, end: Some(2) },
            Span { start: 4, end: Some(5) },
            Span { start: 6, end: None },
        ]
    );
}

#[test]
fn report_trips_are_closed_runs_in_motion() {
    let m = vec![false, true, true, false, true, false, true];
    assert_eq!(
        trip_spans(&m),
        vec![Span { start: 1, end: Some(3) }, Span { start: 4, end: Some(5) }]
    );
    assert_eq!(trip_spans(&vec![true, true]), vec![]);
    assert_eq!(stop_spans(&vec![]), vec![]);
}

#[test]
fn report_every_stationary_position_in_one_stop() {
    let m = vec![true, false, false, true, false];
    let stops = stop_spans(&m);
    for (i, moving) in m.iter().enumerate() {
        let holding = stops
            .iter()
            .filter(|s| s.start <= i && s.end.map_or(true, |e| i < e))
            .count();
        assert_eq!(holding, if *moving { 0 } else { 1 });
    }
}

#[test]
fn report_engine_hours() {
    let ps = vec![position(None, Some("5")), position(None, None), position(None, Some("2.5")), position(None, Some("-1"))];
    assert_eq!(engine_hours_total(&ps), Some(4));
    let big = vec![position(None, Some("9223372036854775807")), position(None, Some("1"))];
    assert_eq!(engine_hours_total(&big), None);
    let t = summary_totals(3, &ps).unwrap();
    assert_eq!(t.device_id, 3);
    assert_eq!(t.engine_hours, 4);
    assert_eq!(t.position_count, 4);
}
