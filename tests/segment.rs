use tracing_xray::ids::{SegmentId, TraceId};
use tracing_xray::segment::{FieldValue, Segment, SegmentError, SegmentState};
use tracing_xray::time::Seconds;

fn sample(start: u64) -> Segment {
    Segment::begin(
        "svc",
        TraceId { seconds: 0x5f84c7c1, random_hi: 1, random_lo: 2 },
        SegmentId { value: 0xabcdef0123456789 },
        Seconds::from_micros(start),
    )
}

fn keys(s: &Segment) -> Vec<String> {
    s.document().into_iter().map(|f| f.key).collect()
}

#[test]
fn begin_is_in_progress_and_end_closes() {
    let mut s = sample(1_000);
    assert_eq!(s.state, SegmentState::InProgress);
    assert_eq!(s.name, "svc");
    assert_eq!(s.parent_id, None);
    assert_eq!(s.resource_arn, None);
    assert_eq!(s.end(Seconds::from_micros(2_500)), Ok(()));
    assert_eq!(s.state, SegmentState::Done { end_time: Seconds::from_micros(2_500) });
}

#[test]
fn end_before_start_is_held_at_start() {
    let mut s = sample(1_000);
    assert_eq!(s.end(Seconds::from_micros(10)), Ok(()));
    assert_eq!(s.state, SegmentState::Done { end_time: Seconds::from_micros(1_000) });
}

#[test]
fn second_end_is_rejected() {
    let mut s = sample(1_000);
    assert_eq!(s.end(Seconds::from_micros(2_000)), Ok(()));
    assert_eq!(s.end(Seconds::from_micros(3_000)), Err(SegmentError::AlreadyEnded));
    assert_eq!(s.state, SegmentState::Done { end_time: Seconds::from_micros(2_000) });
}

#[test]
fn in_progress_document_has_marker_and_no_end_time() {
    let s = sample(1_000);
    assert_eq!(keys(&s), vec!["trace_id", "id", "name", "start_time", "in_progress"]);
    let d = s.document();
    assert!(matches!(d[4].value, FieldValue::Flag(true)));
    assert!(matches!(&d[0].value, FieldValue::Text(t) if t == "1-5f84c7c1-000000010000000000000002"));
    assert!(matches!(&d[1].value, FieldValue::Text(t) if t == "abcdef0123456789"));
}

#[test]
fn done_document_has_end_time_and_no_marker() {
    let mut s = sample(1_000);
    s.parent_id = Some(SegmentId { value: 1 });
    s.resource_arn = Some("arn:aws:lambda:fn".to_string());
    s.end(Seconds::from_micros(5_000)).unwrap();
    assert_eq!(
        keys(&s),
        vec!["trace_id", "id", "name", "start_time", "end_time", "parent_id", "resource_arn"]
    );
    let d = s.document();
    assert!(matches!(d[4].value, FieldValue::Time(t) if t.micros == 5_000));
    assert!(matches!(&d[5].value, FieldValue::Text(t) if t == "0000000000000001"));
}

#[test]
fn test_shared_data_representation() {
    let mut s = sample(1_602_537_409_000_000);
    let open: serde_json::Map<String, serde_json::Value> = s
        .document()
        .into_iter()
        .map(|f| {
            let v = match f.value {
                FieldValue::Text(t) => serde_json::Value::String(t),
                FieldValue::Time(t) => serde_json::Value::from(t.micros as f64 / 1e6),
                FieldValue::Flag(b) => serde_json::Value::Bool(b),
            };
            (f.key, v)
        })
        .collect();
    let text = serde_json::to_string(&open).unwrap();
    assert!(text.contains("\"in_progress\":true"));
    assert!(!text.contains("end_time"));
    s.end(Seconds::from_micros(1_602_537_410_000_000)).unwrap();
    let keys = keys(&s);
    assert!(keys.contains(&"end_time".to_string()));
    assert!(!keys.contains(&"in_progress".to_string()));
}
