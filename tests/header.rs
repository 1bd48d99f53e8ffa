use tracing_xray::header::{Header, HeaderError, SamplingDecision};
use tracing_xray::ids::{SegmentId, TraceId};

const ROOT: &str = "Root=1-5f84c7c1-0123456789abcdef01234567";

#[test]
fn parses_documented_header() {
    let h = Header::parse(
        "Root=1-5f84c7c1-0123456789abcdef01234567;Parent=abcdef0123456789;Sampled=1",
    )
    .unwrap();
    assert_eq!(h.trace_id.format(), "1-5f84c7c1-0123456789abcdef01234567");
    assert_eq!(h.parent_id.map(|p| p.format()), Some("abcdef0123456789".to_string()));
    assert_eq!(h.sampling_decision, SamplingDecision::Sampled);
}

#[test]
fn sampled_zero_and_absent_field() {
    let h = Header::parse(&format!("{};Sampled=0", ROOT)).unwrap();
    assert_eq!(h.sampling_decision, SamplingDecision::NotSampled);
    assert_eq!(h.parent_id, None);
    let u = Header::parse(ROOT).unwrap();
    assert_eq!(u.sampling_decision, SamplingDecision::Unknown);
    let p = Header::parse(&format!("{};Parent=0000000000000001", ROOT)).unwrap();
    assert_eq!(p.parent_id, Some(SegmentId { value: 1 }));
    assert_eq!(p.sampling_decision, SamplingDecision::Unknown);
}

#[test]
fn header_errors() {
    assert_eq!(Header::parse(""), Err(HeaderError::MissingField));
    assert_eq!(Header::parse("Parent=abcdef0123456789"), Err(HeaderError::MissingField));
    assert_eq!(Header::parse("Root=1-5f84c7c1-0123"), Err(HeaderError::MalformedTraceId));
    assert_eq!(
        Header::parse("Root=1-5f84c7c1-0123456789abcdef012345678;Sampled=1"),
        Err(HeaderError::MalformedTraceId)
    );
    assert_eq!(
        Header::parse(&format!("{};Parent=abcdef012345678z", ROOT)),
        Err(HeaderError::MalformedSegmentId)
    );
    assert_eq!(
        Header::parse(&format!("{};Parent=abcdef;Sampled=1", ROOT)),
        Err(HeaderError::MalformedSegmentId)
    );
    assert_eq!(
        Header::parse(&format!("{};Sampled=2", ROOT)),
        Err(HeaderError::UnknownSamplingFlag)
    );
    assert_eq!(
        Header::parse(&format!("{};Sampled=", ROOT)),
        Err(HeaderError::UnknownSamplingFlag)
    );
    assert_eq!(
        Header::parse(&format!("{};Lineage=a87bd80c:1", ROOT)),
        Err(HeaderError::UnexpectedField)
    );
    assert_eq!(
        Header::parse(&format!("{};Sampled=1;Parent=abcdef0123456789", ROOT)),
        Err(HeaderError::UnknownSamplingFlag)
    );
}

#[test]
fn header_formats_in_canonical_order() {
    let t = TraceId { seconds: 0x5f84c7c1, random_hi: 0x01234567, random_lo: 0x89abcdef01234567 };
    let full = Header {
        trace_id: t,
        parent_id: Some(SegmentId { value: 0xabcdef0123456789 }),
        sampling_decision: SamplingDecision::Sampled,
    };
    assert_eq!(
        full.format(),
        "Root=1-5f84c7c1-0123456789abcdef01234567;Parent=abcdef0123456789;Sampled=1"
    );
    let bare = Header { trace_id: t, parent_id: None, sampling_decision: SamplingDecision::Unknown };
    assert_eq!(bare.format(), ROOT);
    let off = Header { trace_id: t, parent_id: None, sampling_decision: SamplingDecision::NotSampled };
    assert_eq!(off.format(), format!("{};Sampled=0", ROOT));
}

#[test]
fn header_round_trips() {
    let t = TraceId { seconds: 1, random_hi: 2, random_lo: 3 };
    for parent in [None, Some(SegmentId { value: 42 })] {
        for d in [SamplingDecision::Sampled, SamplingDecision::NotSampled, SamplingDecision::Unknown] {
            let h = Header { trace_id: t, parent_id: parent, sampling_decision: d };
            assert_eq!(Header::parse(&h.format()), Ok(h));
        }
    }
}
