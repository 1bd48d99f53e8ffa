//! The event translator: turns the host's span lifecycle callbacks into
//! segment operations on a table of segments keyed by span id.

use crate::header::{header_parse, Header, HeaderError, SamplingDecision};
use crate::ids::{SegmentId, TraceId};
use crate::segment::{closed_state, opt_view, Segment, SegmentError, SegmentState, SegmentView};
use crate::time::Seconds;
use std::collections::HashMap;
use vstd::prelude::*;

verus! {

broadcast use vstd::std_specs::hash::group_hash_axioms;

/// Per-process configuration of the translator.
#[derive(Clone, Debug)]
pub struct XRay {
    pub resource_arn: Option<String>,
}

/// The segments of the live spans, keyed by span id.
#[derive(Debug)]
pub struct SpanTable {
    segments: HashMap<u64, Segment>,
}

/// The identifiers and time that the host draws for a new span.
#[derive(Clone, Copy, Debug, PartialEq, Eq, Structural)]
pub struct Fresh {
    pub trace_id: TraceId,
    pub segment_id: SegmentId,
    pub now: Seconds,
}

/// What became of a span start.
#[derive(Clone, Copy, Debug, PartialEq, Eq, Structural)]
pub enum StartOutcome {
    /// A segment was stored for the span.
    Recorded,
    /// The inbound header declined sampling; nothing was stored.
    NotSampled,
    /// The inbound header was malformed; a segment was stored as the root of a
    /// new trace.
    RecordedAsRoot(HeaderError),
}

/// A lifecycle callback that the host delivered out of order.
#[derive(Clone, Copy, Debug, PartialEq, Eq, Structural)]
pub enum TranslateError {
    /// The span has no stored segment.
    MissingSegment(u64),
    /// The span was started twice.
    AlreadyStarted(u64),
    /// The span was closed twice.
    AlreadyEnded(u64),
}

impl View for SpanTable {
    type V = Map<u64, SegmentView>;

    closed spec fn view(&self) -> Map<u64, SegmentView> {
        self.segments@.map_values(|s: Segment| s@)
    }
}

impl SpanTable {
    /// An empty table.
    pub fn new() -> (r: SpanTable)
        ensures
            r@ == Map::<u64, SegmentView>::empty(),
    {
        let r = SpanTable { segments: HashMap::new() };
        assert(r@ =~= Map::<u64, SegmentView>::empty());
        r
    }

    /// Whether `span` has a stored segment.
    pub fn contains(&self, span: u64) -> (r: bool)
        ensures
            r == self@.contains_key(span),
    {
        self.segments.contains_key(&span)
    }

    /// The segment stored for `span`.
    pub fn get(&self, span: u64) -> (r: Option<&Segment>)
        ensures
            match r {
                Some(s) => self@.contains_key(span) && self@[span] == s@,
                None => !self@.contains_key(span),
            },
    {
        self.segments.get(&span)
    }

    /// Takes the segment of `span` out of the table, when the host releases the span.
    pub fn remove(&mut self, span: u64) -> (r: Option<Segment>)
        ensures
            final(self)@ == old(self)@.remove(span),
            match r {
                Some(s) => old(self)@.contains_key(span) && old(self)@[span] == s@,
                None => !old(self)@.contains_key(span),
            },
    {
        let r = self.segments.remove(&span);
        assert(self@ =~= old(self)@.remove(span));
        r
    }

    /// Stores `seg` for `span`.
    fn insert(&mut self, span: u64, seg: Segment)
        ensures
            final(self)@ == old(self)@.insert(span, seg@),
    {
        self.segments.insert(span, seg);
        assert(self@ =~= old(self)@.insert(span, seg@));
    }
}

/// The segment that a span start stores, or `None` where the header declines
/// sampling. A header that does not parse is passed over: the segment is then
/// the root of a new trace.
pub open spec fn started_segment(
    arn: Option<Seq<char>>,
    name: Seq<char>,
    header: Option<Seq<char>>,
    fresh: Fresh,
) -> Option<SegmentView> {
    let base = SegmentView {
        trace_id: fresh.trace_id,
        id: fresh.segment_id,
        name,
        start_time: fresh.now,
        parent_id: None,
        resource_arn: arn,
        state: SegmentState::InProgress,
    };
    match header {
        Some(h) => match header_parse(h) {
            Ok(hd) => if hd.sampling_decision == SamplingDecision::NotSampled {
                None
            } else {
                Some(SegmentView { trace_id: hd.trace_id, parent_id: hd.parent_id, ..base })
            },
            Err(_) => Some(base),
        },
        None => Some(base),
    }
}

/// A span start whose header declines sampling stores no segment and reports
/// so, whatever the rest of the header says.
pub proof fn lemma_unsampled_start_stores_nothing(
    arn: Option<Seq<char>>,
    name: Seq<char>,
    h: Seq<char>,
    fresh: Fresh,
)
    requires
        header_parse(h) is Ok,
        header_parse(h)->Ok_0.sampling_decision == SamplingDecision::NotSampled,
    ensures
        started_segment(arn, name, Some(h), fresh) is None,
        start_outcome(Some(h)) == StartOutcome::NotSampled,
{
}

/// A started segment is open and ends no earlier than it starts.
pub proof fn lemma_started_segment_open(
    arn: Option<Seq<char>>,
    name: Seq<char>,
    header: Option<Seq<char>>,
    fresh: Fresh,
)
    ensures
        started_segment(arn, name, header, fresh) is Some ==> {
            let s = started_segment(arn, name, header, fresh)->Some_0;
            &&& s.state is InProgress
            &&& s.valid()
            &&& s.id == fresh.segment_id
            &&& s.start_time == fresh.now
        },
{
}

/// What a span start reports, where the span was not started before.
pub open spec fn start_outcome(header: Option<Seq<char>>) -> StartOutcome {
    match header {
        Some(h) => match header_parse(h) {
            Ok(hd) => if hd.sampling_decision == SamplingDecision::NotSampled {
                StartOutcome::NotSampled
            } else {
                StartOutcome::Recorded
            },
            Err(e) => StartOutcome::RecordedAsRoot(e),
        },
        None => StartOutcome::Recorded,
    }
}

pub open spec fn opt_str_view(s: Option<&str>) -> Option<Seq<char>> {
    match s {
        Some(t) => Some(t@),
        None => None,
    }
}

impl Default for XRay {
    /// A translator with no resource tag.
    fn default() -> (r: XRay)
        ensures
            r.resource_arn is None,
    {
        XRay::new()
    }
}

impl XRay {
    /// A translator with no resource tag.
    pub fn new() -> (r: XRay)
        ensures
            r.resource_arn is None,
    {
        XRay { resource_arn: None }
    }

    /// A translator that tags each segment with `arn`.
    pub fn with_resource_arn(self, arn: String) -> (r: XRay)
        ensures
            opt_view(r.resource_arn) == Some(arn@),
    {
        XRay { resource_arn: Some(arn) }
    }

    /// A span named `name` starts, with the inbound trace-context header
    /// `header` if it carries one.
    pub fn on_new_span(
        &self,
        spans: &mut SpanTable,
        span: u64,
        name: &str,
        header: Option<&str>,
        fresh: Fresh,
    ) -> (r: Result<StartOutcome, TranslateError>)
        ensures
            old(spans)@.contains_key(span) ==> r == Err::<StartOutcome, TranslateError>(
                TranslateError::AlreadyStarted(span),
            ) && final(spans)@ == old(spans)@,
            !old(spans)@.contains_key(span) ==> {
                &&& r == Ok::<StartOutcome, TranslateError>(start_outcome(opt_str_view(header)))
                &&& final(spans)@ == match started_segment(
                    opt_view(self.resource_arn),
                    name@,
                    opt_str_view(header),
                    fresh,
                ) {
                    Some(s) => old(spans)@.insert(span, s),
                    None => old(spans)@,
                }
            },
    {
        if spans.contains(span) {
            return Err(TranslateError::AlreadyStarted(span));
        }
        let mut seg = Segment::begin(name, fresh.trace_id, fresh.segment_id, fresh.now);
        let mut outcome = StartOutcome::Recorded;
        match header {
            Some(h) => match Header::parse(h) {
                Ok(hd) => {
                    if hd.sampling_decision == SamplingDecision::NotSampled {
                        return Ok(StartOutcome::NotSampled);
                    }
                    seg.trace_id = hd.trace_id;
                    seg.parent_id = hd.parent_id;
                },
                Err(e) => {
                    outcome = StartOutcome::RecordedAsRoot(e);
                },
            },
            None => {},
        }
        seg.resource_arn = match &self.resource_arn {
            Some(a) => Some(a.clone()),
            None => None,
        };
        spans.insert(span, seg);
        Ok(outcome)
    }

    /// Span `span` follows span `follows`: the segment of `follows` becomes
    /// the parent of the segment of `span`, in place of any earlier parent.
    pub fn on_follows_from(&self, spans: &mut SpanTable, span: u64, follows: u64) -> (r: Result<
        (),
        TranslateError,
    >)
        ensures
            !old(spans)@.contains_key(span) ==> r == Err::<(), TranslateError>(
                TranslateError::MissingSegment(span),
            ),
            old(spans)@.contains_key(span) && !old(spans)@.contains_key(follows) ==> r == Err::<
                (),
                TranslateError,
            >(TranslateError::MissingSegment(follows)),
            r is Err ==> final(spans)@ == old(spans)@,
            old(spans)@.contains_key(span) && old(spans)@.contains_key(follows) ==> r is Ok
                && final(spans)@ == old(spans)@.insert(
                span,
                SegmentView { parent_id: Some(old(spans)@[follows].id), ..old(spans)@[span] },
            ),
    {
        if !spans.contains(span) {
            return Err(TranslateError::MissingSegment(span));
        }
        let parent = match spans.get(follows) {
            Some(f) => f.id,
            None => return Err(TranslateError::MissingSegment(follows)),
        };
        match spans.remove(span) {
            Some(mut seg) => {
                seg.parent_id = Some(parent);
                spans.insert(span, seg);
                assert(final(spans)@ =~= old(spans)@.insert(
                    span,
                    SegmentView { parent_id: Some(old(spans)@[follows].id), ..old(spans)@[span] },
                ));
                Ok(())
            },
            None => Err(TranslateError::MissingSegment(span)),
        }
    }

    /// Span `span` closes at time `now`: its segment is closed.
    pub fn on_close(&self, spans: &mut SpanTable, span: u64, now: Seconds) -> (r: Result<
        (),
        TranslateError,
    >)
        ensures
            !old(spans)@.contains_key(span) ==> r == Err::<(), TranslateError>(
                TranslateError::MissingSegment(span),
            ) && final(spans)@ == old(spans)@,
            old(spans)@.contains_key(span) && old(spans)@[span].state is Done ==> r == Err::<
                (),
                TranslateError,
            >(TranslateError::AlreadyEnded(span)) && final(spans)@ == old(spans)@,
            old(spans)@.contains_key(span) && old(spans)@[span].state is InProgress ==> r is Ok
                && final(spans)@ == old(spans)@.insert(
                span,
                SegmentView {
                    state: closed_state(old(spans)@[span].start_time, now),
                    ..old(spans)@[span]
                },
            ),
    {
        match spans.remove(span) {
            Some(mut seg) => {
                let r = seg.end(now);
                spans.insert(span, seg);
                assert(old(spans)@.insert(span, old(spans)@[span]) =~= old(spans)@);
                match r {
                    Ok(()) => Ok(()),
                    Err(SegmentError::AlreadyEnded) => Err(TranslateError::AlreadyEnded(span)),
                }
            },
            None => Err(TranslateError::MissingSegment(span)),
        }
    }
}

} // verus!
