//! The trace-context header: `Root=<trace id>;Parent=<segment id>;Sampled=<0|1>`,
//! where `Parent` and `Sampled` may be left out.

use crate::ids::{
    lemma_segment_round_trip, lemma_trace_round_trip, segment_at, segment_parse, segment_text,
    trace_at, trace_parse, trace_text, SegmentId, TraceId,
};
use vstd::prelude::*;

verus! {

/// The upstream verdict on whether a request's data is recorded.
#[derive(Clone, Copy, Debug, PartialEq, Eq, Structural)]
pub enum SamplingDecision {
    Sampled,
    NotSampled,
    Unknown,
}

/// A parsed trace-context header.
#[derive(Clone, Copy, Debug, PartialEq, Eq, Structural)]
pub struct Header {
    pub trace_id: TraceId,
    pub parent_id: Option<SegmentId>,
    pub sampling_decision: SamplingDecision,
}

/// Why a string is not a trace-context header.
#[derive(Clone, Copy, Debug, PartialEq, Eq, Structural)]
pub enum HeaderError {
    /// The string does not start with the `Root=` field.
    MissingField,
    /// The `Root` value is not a trace id.
    MalformedTraceId,
    /// The `Parent` value is not a segment id.
    MalformedSegmentId,
    /// The `Sampled` value is neither `0` nor `1`.
    UnknownSamplingFlag,
    /// Something other than `Parent` or `Sampled` follows, or they come out of order.
    UnexpectedField,
}

pub open spec fn root_key() -> Seq<char> {
    seq!['R', 'o', 'o', 't', '=']
}

pub open spec fn parent_key() -> Seq<char> {
    seq![';', 'P', 'a', 'r', 'e', 'n', 't', '=']
}

pub open spec fn sampled_key() -> Seq<char> {
    seq![';', 'S', 'a', 'm', 'p', 'l', 'e', 'd', '=']
}

/// Whether `k` stands in `s` from position `i`.
pub open spec fn key_at(s: Seq<char>, i: int, k: Seq<char>) -> bool {
    0 <= i && i + k.len() <= s.len() && s.subrange(i, i + k.len()) == k
}

pub open spec fn parent_text(p: Option<SegmentId>) -> Seq<char> {
    match p {
        Some(id) => parent_key() + segment_text(id),
        None => Seq::empty(),
    }
}

pub open spec fn sampled_text(d: SamplingDecision) -> Seq<char> {
    match d {
        SamplingDecision::Sampled => sampled_key().push('1'),
        SamplingDecision::NotSampled => sampled_key().push('0'),
        SamplingDecision::Unknown => Seq::empty(),
    }
}

/// The canonical text of a header: Root, then Parent if set, then Sampled if known.
pub open spec fn header_text(h: Header) -> Seq<char> {
    root_key() + trace_text(h.trace_id) + parent_text(h.parent_id) + sampled_text(
        h.sampling_decision,
    )
}

/// What parsing the `Sampled` part of `s`, from position `i` to the end, gives.
pub open spec fn sampled_parse(s: Seq<char>, i: int, t: TraceId, p: Option<SegmentId>) -> Result<
    Header,
    HeaderError,
> {
    if s.len() == i {
        Ok(Header { trace_id: t, parent_id: p, sampling_decision: SamplingDecision::Unknown })
    } else if key_at(s, i, sampled_key()) {
        if s.len() == i + 10 && s[i + 9] == '1' {
            Ok(Header { trace_id: t, parent_id: p, sampling_decision: SamplingDecision::Sampled })
        } else if s.len() == i + 10 && s[i + 9] == '0' {
            Ok(
                Header {
                    trace_id: t,
                    parent_id: p,
                    sampling_decision: SamplingDecision::NotSampled,
                },
            )
        } else {
            Err(HeaderError::UnknownSamplingFlag)
        }
    } else {
        Err(HeaderError::UnexpectedField)
    }
}

/// What parsing `s` as a header gives. A field value ends at `;` or at the
/// end of the string.
pub open spec fn header_parse(s: Seq<char>) -> Result<Header, HeaderError> {
    if !key_at(s, 0, root_key()) {
        Err(HeaderError::MissingField)
    } else if s.len() < 40 || (s.len() > 40 && s[40] != ';') {
        Err(HeaderError::MalformedTraceId)
    } else {
        match trace_parse(s.subrange(5, 40)) {
            Err(_) => Err(HeaderError::MalformedTraceId),
            Ok(t) => if key_at(s, 40, parent_key()) {
                if s.len() < 64 || (s.len() > 64 && s[64] != ';') {
                    Err(HeaderError::MalformedSegmentId)
                } else {
                    match segment_parse(s.subrange(48, 64)) {
                        Err(_) => Err(HeaderError::MalformedSegmentId),
                        Ok(p) => sampled_parse(s, 64, t, Some(p)),
                    }
                }
            } else {
                sampled_parse(s, 40, t, None)
            },
        }
    }
}

/// Whether the literal `lit` stands in `s` from position `start`.
fn literal_at(s: &str, start: usize, lit: &str) -> (r: bool)
    requires
        s@.len() <= usize::MAX,
        lit@.len() <= 16,
    ensures
        r == key_at(s@, start as int, lit@),
{
    let len = s.unicode_len();
    let n = lit.unicode_len();
    if start > len || len - start < n {
        return false;
    }
    let mut i: usize = 0;
    while i < n
        invariant
            i <= n == lit@.len(),
            start + n <= len == s@.len(),
            s@.subrange(start as int, start + i) == lit@.subrange(0, i as int),
        decreases n - i,
    {
        if s.get_char(start + i) != lit.get_char(i) {
            assert(s@.subrange(start as int, start + n)[i as int] != lit@[i as int]);
            return false;
        }
        assert(s@.subrange(start as int, start + i + 1) =~= lit@.subrange(0, i + 1));
        i = i + 1;
    }
    assert(lit@.subrange(0, n as int) =~= lit@);
    true
}

impl Header {
    /// Reads a header from its text.
    pub fn parse(s: &str) -> (r: Result<Header, HeaderError>)
        ensures
            r == header_parse(s@),
    {
        let len = s.unicode_len();
        proof {
            reveal_strlit("Root=");
            reveal_strlit(";Parent=");
            reveal_strlit(";Sampled=");
            assert("Root="@ =~= root_key());
            assert(";Parent="@ =~= parent_key());
            assert(";Sampled="@ =~= sampled_key());
        }
        if !literal_at(s, 0, "Root=") {
            return Err(HeaderError::MissingField);
        }
        if len < 40 || (len > 40 && s.get_char(40) != ';') {
            return Err(HeaderError::MalformedTraceId);
        }
        let t = match trace_at(s, 5) {
            Ok(t) => t,
            Err(_) => return Err(HeaderError::MalformedTraceId),
        };
        let mut pos: usize = 40;
        let mut parent: Option<SegmentId> = None;
        if literal_at(s, 40, ";Parent=") {
            if len < 64 || (len > 64 && s.get_char(64) != ';') {
                return Err(HeaderError::MalformedSegmentId);
            }
            match segment_at(s, 48) {
                Ok(p) => {
                    parent = Some(p);
                },
                Err(_) => return Err(HeaderError::MalformedSegmentId),
            }
            pos = 64;
        }
        assert(header_parse(s@) == sampled_parse(s@, pos as int, t, parent));
        if pos == len {
            return Ok(
                Header { trace_id: t, parent_id: parent, sampling_decision: SamplingDecision::Unknown },
            );
        }
        if !literal_at(s, pos, ";Sampled=") {
            return Err(HeaderError::UnexpectedField);
        }
        if len == pos + 10 {
            let c = s.get_char(pos + 9);
            if c == '1' {
                return Ok(
                    Header {
                        trace_id: t,
                        parent_id: parent,
                        sampling_decision: SamplingDecision::Sampled,
                    },
                );
            } else if c == '0' {
                return Ok(
                    Header {
                        trace_id: t,
                        parent_id: parent,
                        sampling_decision: SamplingDecision::NotSampled,
                    },
                );
            }
        }
        Err(HeaderError::UnknownSamplingFlag)
    }

    /// The canonical text of the header: Root, then Parent if set, then
    /// Sampled unless the decision is unknown.
    pub fn format(&self) -> (r: String)
        ensures
            r@ == header_text(*self),
    {
        proof {
            reveal_strlit("Root=");
            reveal_strlit(";Parent=");
            reveal_strlit(";Sampled=1");
            reveal_strlit(";Sampled=0");
            assert("Root="@ =~= root_key());
            assert(";Parent="@ =~= parent_key());
            assert(";Sampled=1"@ =~= sampled_key().push('1'));
            assert(";Sampled=0"@ =~= sampled_key().push('0'));
        }
        let mut out = String::from_str("Root=");
        let t = self.trace_id.format();
        out.append(t.as_str());
        match self.parent_id {
            Some(p) => {
                out.append(";Parent=");
                let ps = p.format();
                out.append(ps.as_str());
            },
            None => {},
        }
        match self.sampling_decision {
            SamplingDecision::Sampled => out.append(";Sampled=1"),
            SamplingDecision::NotSampled => out.append(";Sampled=0"),
            SamplingDecision::Unknown => {},
        }
        assert(out@ =~= header_text(*self));
        out
    }
}

/// Formatting a header and parsing the text gives the same header back.
pub proof fn lemma_header_round_trip(h: Header)
    ensures
        header_parse(header_text(h)) == Ok::<Header, HeaderError>(h),
{
    let s = header_text(h);
    let tt = trace_text(h.trace_id);
    let rest = parent_text(h.parent_id) + sampled_text(h.sampling_decision);
    lemma_trace_round_trip(h.trace_id);
    assert(s =~= root_key() + tt + rest);
    assert(s.subrange(0, 5) =~= root_key());
    assert(s.subrange(5, 40) =~= tt);
    assert(s.subrange(40, s.len() as int) =~= rest);
    if s.len() > 40 {
        assert(s[40] == rest[0]);
    }
    match h.parent_id {
        Some(p) => {
            lemma_segment_round_trip(p);
            assert(s.subrange(40, 48) =~= parent_key());
            assert(s.subrange(48, 64) =~= segment_text(p));
            assert(s.subrange(64, s.len() as int) =~= sampled_text(h.sampling_decision));
            if s.len() > 64 {
                assert(s[64] == sampled_text(h.sampling_decision)[0]);
                assert(s.subrange(64, 73) =~= sampled_key());
            }
        },
        None => {
            assert(rest =~= sampled_text(h.sampling_decision));
            if s.len() > 40 {
                assert(s[41] == sampled_key()[1]);
                assert(s.subrange(40, 49) =~= sampled_key());
            }
        },
    }
}

} // verus!
