//! The record of one unit of work, its lifecycle and its document form.

use crate::ids::{segment_text, trace_text, SegmentId, TraceId};
use crate::time::Seconds;
use vstd::prelude::*;

verus! {

/// Where a segment is in its lifecycle.
#[derive(Clone, Copy, Debug, PartialEq, Eq, Structural)]
pub enum SegmentState {
    InProgress,
    Done { end_time: Seconds },
}

/// A lifecycle step that a segment refuses.
#[derive(Clone, Copy, Debug, PartialEq, Eq, Structural)]
pub enum SegmentError {
    /// The segment was already closed.
    AlreadyEnded,
}

/// The record of one unit of work.
#[derive(Clone, Debug)]
pub struct Segment {
    pub trace_id: TraceId,
    pub id: SegmentId,
    /// The logical name of the service; documented limit 200 characters.
    pub name: String,
    pub start_time: Seconds,
    pub parent_id: Option<SegmentId>,
    pub resource_arn: Option<String>,
    pub state: SegmentState,
}

/// A segment with its strings seen as character sequences.
pub struct SegmentView {
    pub trace_id: TraceId,
    pub id: SegmentId,
    pub name: Seq<char>,
    pub start_time: Seconds,
    pub parent_id: Option<SegmentId>,
    pub resource_arn: Option<Seq<char>>,
    pub state: SegmentState,
}

impl SegmentView {
    /// A closed segment ends no earlier than it starts.
    pub open spec fn valid(self) -> bool {
        match self.state {
            SegmentState::Done { end_time } => end_time.micros >= self.start_time.micros,
            SegmentState::InProgress => true,
        }
    }
}

pub open spec fn opt_view(s: Option<String>) -> Option<Seq<char>> {
    match s {
        Some(t) => Some(t@),
        None => None,
    }
}

impl View for Segment {
    type V = SegmentView;

    open spec fn view(&self) -> SegmentView {
        SegmentView {
            trace_id: self.trace_id,
            id: self.id,
            name: self.name@,
            start_time: self.start_time,
            parent_id: self.parent_id,
            resource_arn: opt_view(self.resource_arn),
            state: self.state,
        }
    }
}

/// The value of one field of a segment document.
#[derive(Clone, Debug)]
pub enum FieldValue {
    Text(String),
    Time(Seconds),
    Flag(bool),
}

/// One named field of a segment document.
#[derive(Clone, Debug)]
pub struct DocumentField {
    pub key: String,
    pub value: FieldValue,
}

/// A field value with its text seen as a character sequence.
pub enum FieldValueView {
    Text(Seq<char>),
    Time(Seconds),
    Flag(bool),
}

impl View for FieldValue {
    type V = FieldValueView;

    open spec fn view(&self) -> FieldValueView {
        match self {
            FieldValue::Text(t) => FieldValueView::Text(t@),
            FieldValue::Time(t) => FieldValueView::Time(*t),
            FieldValue::Flag(b) => FieldValueView::Flag(*b),
        }
    }
}

impl View for DocumentField {
    type V = (Seq<char>, FieldValueView);

    open spec fn view(&self) -> (Seq<char>, FieldValueView) {
        (self.key@, self.value@)
    }
}

pub open spec fn trace_id_key() -> Seq<char> {
    "trace_id"@
}

pub open spec fn id_key() -> Seq<char> {
    "id"@
}

pub open spec fn name_key() -> Seq<char> {
    "name"@
}

pub open spec fn start_time_key() -> Seq<char> {
    "start_time"@
}

pub open spec fn end_time_key() -> Seq<char> {
    "end_time"@
}

pub open spec fn in_progress_key() -> Seq<char> {
    "in_progress"@
}

pub open spec fn parent_id_key() -> Seq<char> {
    "parent_id"@
}

pub open spec fn resource_arn_key() -> Seq<char> {
    "resource_arn"@
}

/// The fields of a segment document, in order: identity, name and start
/// time always; then `end_time` for a closed segment or `in_progress` for an
/// open one; then `parent_id` and `resource_arn` where they are set.
pub open spec fn document_of(s: SegmentView) -> Seq<(Seq<char>, FieldValueView)> {
    seq![
        (trace_id_key(), FieldValueView::Text(trace_text(s.trace_id))),
        (id_key(), FieldValueView::Text(segment_text(s.id))),
        (name_key(), FieldValueView::Text(s.name)),
        (start_time_key(), FieldValueView::Time(s.start_time)),
        match s.state {
            SegmentState::Done { end_time } => (end_time_key(), FieldValueView::Time(end_time)),
            SegmentState::InProgress => (in_progress_key(), FieldValueView::Flag(true)),
        },
    ] + match s.parent_id {
        Some(p) => seq![(parent_id_key(), FieldValueView::Text(segment_text(p)))],
        None => Seq::empty(),
    } + match s.resource_arn {
        Some(a) => seq![(resource_arn_key(), FieldValueView::Text(a))],
        None => Seq::empty(),
    }
}

/// Whether a document has a field named `k`.
pub open spec fn has_key(d: Seq<(Seq<char>, FieldValueView)>, k: Seq<char>) -> bool {
    exists|i: int| 0 <= i < d.len() && #[trigger] d[i].0 == k
}

/// An open segment's document marks it in progress and has no end time; a
/// closed segment's document has its end time and no in-progress mark.
pub proof fn lemma_document_state_fields(s: SegmentView)
    ensures
        s.state is InProgress ==> document_of(s).contains(
            (in_progress_key(), FieldValueView::Flag(true)),
        ) && !has_key(document_of(s), end_time_key()),
        s.state is Done ==> document_of(s).contains(
            (end_time_key(), FieldValueView::Time(s.state->end_time)),
        ) && !has_key(document_of(s), in_progress_key()),
{
    reveal_strlit("trace_id");
    reveal_strlit("id");
    reveal_strlit("name");
    reveal_strlit("start_time");
    reveal_strlit("end_time");
    reveal_strlit("in_progress");
    reveal_strlit("parent_id");
    reveal_strlit("resource_arn");
    let d = document_of(s);
    assert(d[4].0 == end_time_key() || d[4].0 == in_progress_key());
    assert(trace_id_key()[0] != end_time_key()[0] && trace_id_key()[0] != in_progress_key()[0]);
    assert(id_key().len() != end_time_key().len() && id_key().len() != in_progress_key().len());
    assert(name_key().len() != end_time_key().len() && name_key().len() != in_progress_key().len());
    assert(start_time_key().len() != end_time_key().len() && start_time_key().len() != in_progress_key().len());
    assert(parent_id_key().len() != end_time_key().len() && parent_id_key().len() != in_progress_key().len());
    assert(resource_arn_key().len() != end_time_key().len() && resource_arn_key().len() != in_progress_key().len());
    assert(end_time_key().len() != in_progress_key().len());
    if s.state is InProgress {
        assert(d[4] == (in_progress_key(), FieldValueView::Flag(true)));
    } else {
        assert(d[4] == (end_time_key(), FieldValueView::Time(s.state->end_time)));
    }
}

fn text_field(key: &str, text: String) -> (r: DocumentField)
    ensures
        r@ == (key@, FieldValueView::Text(text@)),
{
    DocumentField { key: String::from_str(key), value: FieldValue::Text(text) }
}

/// The state that closing a segment that started at `start` at time `now`
/// gives: a clock that went back is held at the start.
pub open spec fn closed_state(start: Seconds, now: Seconds) -> SegmentState {
    if now.micros >= start.micros {
        SegmentState::Done { end_time: now }
    } else {
        SegmentState::Done { end_time: start }
    }
}

/// Closing an open segment leaves it closed, ending no earlier than it started.
pub proof fn lemma_end_after_start(s: SegmentView, now: Seconds)
    requires
        s.state is InProgress,
    ensures
        (SegmentView { state: closed_state(s.start_time, now), ..s }).valid(),
        closed_state(s.start_time, now) is Done,
        closed_state(s.start_time, now)->end_time.micros >= s.start_time.micros,
{
}

impl Segment {
    /// A new segment in progress, named `name`, started at `now`, with no
    /// parent and no resource tag.
    pub fn begin(name: &str, trace_id: TraceId, id: SegmentId, now: Seconds) -> (r: Segment)
        ensures
            r@ == (SegmentView {
                trace_id,
                id,
                name: name@,
                start_time: now,
                parent_id: None,
                resource_arn: None,
                state: SegmentState::InProgress,
            }),
            r@.valid(),
    {
        Segment {
            trace_id,
            id,
            name: String::from_str(name),
            start_time: now,
            parent_id: None,
            resource_arn: None,
            state: SegmentState::InProgress,
        }
    }

    /// Closes the segment at time `now`; a segment that is already closed is
    /// left as it is and the second close is reported.
    pub fn end(&mut self, now: Seconds) -> (r: Result<(), SegmentError>)
        ensures
            old(self).state is InProgress ==> r is Ok && final(self)@ == (SegmentView {
                state: closed_state(old(self).start_time, now),
                ..old(self)@
            }),
            old(self).state is Done ==> r == Err::<(), SegmentError>(SegmentError::AlreadyEnded)
                && final(self)@ == old(self)@,
            old(self)@.valid() ==> final(self)@.valid(),
            final(self).state is Done,
    {
        match self.state {
            SegmentState::Done { .. } => Err(SegmentError::AlreadyEnded),
            SegmentState::InProgress => {
                if now.micros >= self.start_time.micros {
                    self.state = SegmentState::Done { end_time: now };
                } else {
                    self.state = SegmentState::Done { end_time: self.start_time };
                }
                Ok(())
            },
        }
    }

    /// The segment as the fields of its document.
    pub fn document(&self) -> (r: Vec<DocumentField>)
        ensures
            r@.map_values(|f: DocumentField| f@) == document_of(self@),
    {
        let mut d: Vec<DocumentField> = Vec::new();
        d.push(text_field("trace_id", self.trace_id.format()));
        d.push(text_field("id", self.id.format()));
        d.push(text_field("name", self.name.clone()));
        d.push(
            DocumentField { key: String::from_str("start_time"), value: FieldValue::Time(self.start_time) },
        );
        match self.state {
            SegmentState::Done { end_time } => d.push(
                DocumentField { key: String::from_str("end_time"), value: FieldValue::Time(end_time) },
            ),
            SegmentState::InProgress => d.push(
                DocumentField { key: String::from_str("in_progress"), value: FieldValue::Flag(true) },
            ),
        }
        let ghost head = d@.map_values(|f: DocumentField| f@);
        match self.parent_id {
            Some(p) => d.push(text_field("parent_id", p.format())),
            None => {},
        }
        let ghost mid = d@.map_values(|f: DocumentField| f@);
        match &self.resource_arn {
            Some(a) => d.push(text_field("resource_arn", a.clone())),
            None => {},
        }
        let ghost all = d@.map_values(|f: DocumentField| f@);
        let ghost doc = document_of(self@);
        assert(head.len() == 5);
        assert(mid.subrange(0, 5) =~= head);
        assert(all.subrange(0, mid.len() as int) =~= mid);
        assert(all =~= doc);
        d
    }
}

} // verus!
