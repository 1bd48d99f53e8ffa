use tracing_xray::ids::{SegmentId, TraceId};
use tracing_xray::segment::SegmentState;
use tracing_xray::time::Seconds;
use tracing_xray::xray::{Fresh, SpanTable, StartOutcome, TranslateError, XRay};
use tracing_xray::header::HeaderError;

fn fresh(n: u64) -> Fresh {
    Fresh {
        trace_id: TraceId { seconds: 10, random_hi: 0, random_lo: n },
        segment_id: SegmentId { value: n },
        now: Seconds::from_micros(100 * n),
    }
}

const HEADER: &str = "Root=1-5f84c7c1-0123456789abcdef01234567;Parent=abcdef0123456789;Sampled=1";

#[test]
fn start_without_header_records_fresh_segment() {
    let x = XRay::default().with_resource_arn("arn:x".to_string());
    let mut t = SpanTable::new();
    assert_eq!(x.on_new_span(&mut t, 1, "svc", None, fresh(1)), Ok(StartOutcome::Recorded));
    let s = t.get(1).unwrap();
    assert_eq!(s.trace_id, fresh(1).trace_id);
    assert_eq!(s.id, SegmentId { value: 1 });
    assert_eq!(s.name, "svc");
    assert_eq!(s.resource_arn, Some("arn:x".to_string()));
    assert_eq!(s.state, SegmentState::InProgress);
}

#[test]
fn start_adopts_sampled_header() {
    let x = XRay::new();
    let mut t = SpanTable::new();
    assert_eq!(x.on_new_span(&mut t, 1, "svc", Some(HEADER), fresh(1)), Ok(StartOutcome::Recorded));
    let s = t.get(1).unwrap();
    assert_eq!(s.trace_id.format(), "1-5f84c7c1-0123456789abcdef01234567");
    assert_eq!(s.parent_id, Some(SegmentId { value: 0xabcdef0123456789 }));
    assert_eq!(s.id, SegmentId { value: 1 });
    assert_eq!(s.resource_arn, None);
}

#[test]
fn unsampled_header_attaches_nothing() {
    let x = XRay::new();
    let mut t = SpanTable::new();
    let h = "Root=1-5f84c7c1-0123456789abcdef01234567;Sampled=0";
    assert_eq!(x.on_new_span(&mut t, 1, "svc", Some(h), fresh(1)), Ok(StartOutcome::NotSampled));
    assert!(!t.contains(1));
    assert!(t.get(1).is_none());
}

#[test]
fn malformed_header_starts_new_root() {
    let x = XRay::new();
    let mut t = SpanTable::new();
    assert_eq!(
        x.on_new_span(&mut t, 1, "svc", Some("garbage"), fresh(3)),
        Ok(StartOutcome::RecordedAsRoot(HeaderError::MissingField))
    );
    let s = t.get(1).unwrap();
    assert_eq!(s.trace_id, fresh(3).trace_id);
    assert_eq!(s.parent_id, None);
}

#[test]
fn follow_sets_parent_over_header_parent() {
    let x = XRay::new();
    let mut t = SpanTable::new();
    x.on_new_span(&mut t, 1, "a", Some(HEADER), fresh(1)).unwrap();
    x.on_new_span(&mut t, 2, "b", None, fresh(2)).unwrap();
    assert_eq!(x.on_follows_from(&mut t, 1, 2), Ok(()));
    assert_eq!(t.get(1).unwrap().parent_id, Some(SegmentId { value: 2 }));
    assert_eq!(t.get(2).unwrap().parent_id, None);
}

#[test]
fn lifecycle_faults_are_reported() {
    let x = XRay::new();
    let mut t = SpanTable::new();
    assert_eq!(x.on_follows_from(&mut t, 1, 2), Err(TranslateError::MissingSegment(1)));
    x.on_new_span(&mut t, 1, "a", None, fresh(1)).unwrap();
    assert_eq!(x.on_follows_from(&mut t, 1, 2), Err(TranslateError::MissingSegment(2)));
    assert_eq!(
        x.on_new_span(&mut t, 1, "again", None, fresh(5)),
        Err(TranslateError::AlreadyStarted(1))
    );
    assert_eq!(t.get(1).unwrap().name, "a");
    assert_eq!(
        x.on_close(&mut t, 9, Seconds::from_micros(1)),
        Err(TranslateError::MissingSegment(9))
    );
}

#[test]
fn close_ends_segment_once() {
    let x = XRay::new();
    let mut t = SpanTable::new();
    x.on_new_span(&mut t, 4, "a", None, fresh(1)).unwrap();
    assert_eq!(x.on_close(&mut t, 4, Seconds::from_micros(900)), Ok(()));
    assert_eq!(
        t.get(4).unwrap().state,
        SegmentState::Done { end_time: Seconds::from_micros(900) }
    );
    assert_eq!(
        x.on_close(&mut t, 4, Seconds::from_micros(950)),
        Err(TranslateError::AlreadyEnded(4))
    );
    let s = t.remove(4).unwrap();
    assert_eq!(s.state, SegmentState::Done { end_time: Seconds::from_micros(900) });
    assert!(!t.contains(4));
}
