//! Derivation of a test-result record from the root span of a completed
//! trace.

use vstd::prelude::*;
use crate::span::{tag_value, Span};
use crate::tags::{domain_key, open_tracing_key, IkrellnTags, OpenTracingTag};
use crate::text::{copy_opt, lower_of, lowercase, opt_view, or_else, str_eq};

verus! {

/// A required tag that is absent or cannot be read; `tag` is its key.
pub struct KnownTag {
    pub tag: String,
}

impl KnownTag {
    /// The error for a domain tag.
    pub fn domain(t: IkrellnTags) -> (r: KnownTag)
        ensures
            r.tag@ == domain_key(t),
    {
        KnownTag { tag: t.as_str().to_string() }
    }
}

/// Outcome of a test execution.
#[derive(Clone, Copy, Debug, PartialEq, Eq, Structural)]
pub enum TestStatus {
    Success,
    Failure,
    Skipped,
}

/// The status named by a lowercase status string.
pub open spec fn status_from_lowered(s: Seq<char>) -> Option<TestStatus> {
    if s == "success"@ {
        Some(TestStatus::Success)
    } else if s == "failure"@ {
        Some(TestStatus::Failure)
    } else if s == "skipped"@ {
        Some(TestStatus::Skipped)
    } else {
        None
    }
}

/// The stored code of a status.
pub open spec fn status_code(s: TestStatus) -> i32 {
    match s {
        TestStatus::Success => 0,
        TestStatus::Failure => 1,
        TestStatus::Skipped => 2,
    }
}

impl TestStatus {
    /// Parses a status string that is already in lowercase.
    pub fn from_lowered(s: &str) -> (r: Result<TestStatus, KnownTag>)
        ensures
            match r {
                Ok(st) => status_from_lowered(s@) == Some(st),
                Err(e) => status_from_lowered(s@) is None && e.tag@ == domain_key(
                    IkrellnTags::Result,
                ),
            },
    {
        if str_eq(s, "success") {
            Ok(TestStatus::Success)
        } else if str_eq(s, "failure") {
            Ok(TestStatus::Failure)
        } else if str_eq(s, "skipped") {
            Ok(TestStatus::Skipped)
        } else {
            Err(KnownTag::domain(IkrellnTags::Result))
        }
    }

    /// Parses a status string, ignoring case.
    pub fn try_from(s: &str) -> (r: Result<TestStatus, KnownTag>)
        ensures
            match r {
                Ok(st) => status_from_lowered(lower_of(s@)) == Some(st),
                Err(e) => status_from_lowered(lower_of(s@)) is None && e.tag@ == domain_key(
                    IkrellnTags::Result,
                ),
            },
    {
        let lowered = lowercase(s);
        TestStatus::from_lowered(lowered.as_str())
    }

    /// The stored code: 0 success, 1 failure, 2 skipped.
    pub fn as_i32(&self) -> (r: i32)
        ensures
            r == status_code(*self),
    {
        match self {
            TestStatus::Success => 0,
            TestStatus::Failure => 1,
            TestStatus::Skipped => 2,
        }
    }

    /// Decodes a stored code; an unknown code reads as a failure.
    pub fn from_i32(v: i32) -> (r: TestStatus)
        ensures
            0 <= v <= 2 ==> status_code(r) == v,
            !(0 <= v <= 2) ==> r == TestStatus::Failure,
    {
        match v {
            0 => TestStatus::Success,
            2 => TestStatus::Skipped,
            _ => TestStatus::Failure,
        }
    }
}

/// The record derived from one completed trace.
pub struct TestResult {
    /// The test item's identifier, given when the record is stored.
    pub test_id: String,
    /// Names of the ancestors, from the root down, without the test itself.
    pub path: Vec<String>,
    pub name: String,
    pub trace_id: String,
    /// Microseconds since the epoch.
    pub date: i64,
    pub status: TestStatus,
    /// Microseconds.
    pub duration: i64,
    pub environment: Option<String>,
    pub components_called: Vec<String>,
    pub nb_spans: usize,
}

/// The suite: tag `test.suite`, else the service name.
pub open spec fn suite_of(span: Span) -> Option<Seq<char>> {
    or_else(tag_value(span.tags@, domain_key(IkrellnTags::Suite)), opt_view(span.service_name))
}

/// The class: tag `test.class`.
pub open spec fn class_of(span: Span) -> Option<Seq<char>> {
    tag_value(span.tags@, domain_key(IkrellnTags::Class))
}

/// The name: tag `test.name`, else the span's name.
pub open spec fn name_of(span: Span) -> Option<Seq<char>> {
    or_else(tag_value(span.tags@, domain_key(IkrellnTags::Name)), opt_view(span.name))
}

/// What the `error` tag stands for as a status string: `failure` when it
/// reads `true` in any case, else its own value.
pub open spec fn error_as_status(e: Seq<char>) -> Seq<char> {
    error_text(e, lower_of(e))
}

/// What an `error` tag value `e` stands for as a status string, given its
/// lowercase form `lowered`.
pub open spec fn error_text(e: Seq<char>, lowered: Seq<char>) -> Seq<char> {
    if lowered == "true"@ {
        "failure"@
    } else {
        e
    }
}

/// The status string that the `error` tag value `e` stands for, given its
/// lowercase form `lowered`: `failure` when that reads `true`, else `e`
/// unchanged.
pub fn error_status_text(e: String, lowered: &str) -> (r: String)
    ensures
        r@ == error_text(e@, lowered@),
{
    if str_eq(lowered, "true") {
        "failure".to_string()
    } else {
        e
    }
}

/// The status string: tag `test.result`, else what the `error` tag stands for.
pub open spec fn status_text_of(span: Span) -> Option<Seq<char>> {
    match tag_value(span.tags@, domain_key(IkrellnTags::Result)) {
        Some(v) => Some(v),
        None => match tag_value(span.tags@, open_tracing_key(OpenTracingTag::Error)) {
            Some(e) => Some(error_as_status(e)),
            None => None,
        },
    }
}

/// The status, read from the status string without regard to case.
pub open spec fn status_of(span: Span) -> Option<TestStatus> {
    match status_text_of(span) {
        Some(t) => status_from_lowered(lower_of(t)),
        None => None,
    }
}

/// The key of the first required field that cannot be derived, in the
/// order suite, class, name, timestamp, status, duration.
pub open spec fn missing_tag(span: Span) -> Option<Seq<char>> {
    if suite_of(span) is None {
        Some(domain_key(IkrellnTags::Suite))
    } else if class_of(span) is None {
        Some(domain_key(IkrellnTags::Class))
    } else if name_of(span) is None {
        Some(domain_key(IkrellnTags::Name))
    } else if span.timestamp is None {
        Some("ts"@)
    } else if status_of(span) is None {
        Some(domain_key(IkrellnTags::Result))
    } else if span.duration is None {
        Some("duration"@)
    } else {
        None
    }
}

/// Holds when `t` is the record that `span` yields.
pub open spec fn extracted_from(t: TestResult, span: Span) -> bool {
    &&& t.test_id@ == Seq::<char>::empty()
    &&& t.path@.len() == 2
    &&& Some(t.path@[0]@) == suite_of(span)
    &&& Some(t.path@[1]@) == class_of(span)
    &&& Some(t.name@) == name_of(span)
    &&& t.trace_id@ == span.trace_id@
    &&& Some(t.date) == span.timestamp
    &&& Some(t.status) == status_of(span)
    &&& Some(t.duration) == span.duration
    &&& opt_view(t.environment) == tag_value(span.tags@, domain_key(IkrellnTags::Environment))
    &&& t.components_called@.len() == 0
    &&& t.nb_spans == 0
}

/// Holds when two records carry the same values.
pub open spec fn same_record(a: TestResult, b: TestResult) -> bool {
    &&& a.test_id@ == b.test_id@
    &&& a.path@.len() == b.path@.len()
    &&& forall|i: int| 0 <= i < a.path@.len() ==> (#[trigger] a.path@[i])@ == b.path@[i]@
    &&& a.name@ == b.name@
    &&& a.trace_id@ == b.trace_id@
    &&& a.date == b.date
    &&& a.status == b.status
    &&& a.duration == b.duration
    &&& opt_view(a.environment) == opt_view(b.environment)
    &&& a.components_called@.len() == b.components_called@.len()
    &&& forall|i: int|
        0 <= i < a.components_called@.len() ==> (#[trigger] a.components_called@[i])@
            == b.components_called@[i]@
    &&& a.nb_spans == b.nb_spans
}

impl TestResult {
    /// The value of a tag, or the error naming it.
    fn value_from_tag(span: &Span, key: &str) -> (r: Result<String, KnownTag>)
        ensures
            match r {
                Ok(v) => tag_value(span.tags@, key@) == Some(v@),
                Err(e) => tag_value(span.tags@, key@) is None && e.tag@ == key@,
            },
    {
        match span.tag(key) {
            Some(v) => Ok(v),
            None => Err(KnownTag { tag: key.to_string() }),
        }
    }

    /// The value of a domain tag, else `fallback`, else the error naming
    /// the tag.
    fn value_from_tag_or(span: &Span, tag: IkrellnTags, fallback: Option<String>) -> (r: Result<
        String,
        KnownTag,
    >)
        ensures
            match r {
                Ok(v) => or_else(tag_value(span.tags@, domain_key(tag)), opt_view(fallback))
                    == Some(v@),
                Err(e) => or_else(tag_value(span.tags@, domain_key(tag)), opt_view(fallback))
                    is None && e.tag@ == domain_key(tag),
            },
    {
        match span.tag(tag.as_str()) {
            Some(v) => Ok(v),
            None => match fallback {
                Some(v) => Ok(v),
                None => Err(KnownTag::domain(tag)),
            },
        }
    }

    /// The status string of a span that has no `test.result` tag.
    fn status_from_error_tag(span: &Span) -> (r: Option<String>)
        ensures
            opt_view(r) == match tag_value(
                span.tags@,
                open_tracing_key(OpenTracingTag::Error),
            ) {
                Some(e) => Some(error_as_status(e)),
                None => None,
            },
    {
        match span.tag(OpenTracingTag::Error.as_str()) {
            Some(e) => {
                let lowered = lowercase(e.as_str());
                Some(error_status_text(e, lowered.as_str()))
            },
            None => None,
        }
    }

    /// Derives the record of a root span, or names the first required tag
    /// that is missing or unreadable.
    pub fn try_from(span: &Span) -> (r: Result<TestResult, KnownTag>)
        ensures
            match r {
                Ok(t) => missing_tag(*span) is None && extracted_from(t, *span),
                Err(e) => missing_tag(*span) == Some(e.tag@),
            },
    {
        let suite = match TestResult::value_from_tag_or(
            span,
            IkrellnTags::Suite,
            copy_opt(&span.service_name),
        ) {
            Ok(v) => v,
            Err(e) => return Err(e),
        };
        let class = match TestResult::value_from_tag(span, IkrellnTags::Class.as_str()) {
            Ok(v) => v,
            Err(e) => return Err(e),
        };
        let name = match TestResult::value_from_tag_or(span, IkrellnTags::Name, copy_opt(&span.name)) {
            Ok(v) => v,
            Err(e) => return Err(e),
        };
        let date = match span.timestamp {
            Some(ts) => ts,
            None => return Err(KnownTag { tag: "ts".to_string() }),
        };
        let status_text = match TestResult::value_from_tag_or(
            span,
            IkrellnTags::Result,
            TestResult::status_from_error_tag(span),
        ) {
            Ok(v) => v,
            Err(e) => return Err(e),
        };
        let status = match TestStatus::try_from(status_text.as_str()) {
            Ok(s) => s,
            Err(e) => return Err(e),
        };
        let duration = match span.duration {
            Some(d) => d,
            None => return Err(KnownTag { tag: "duration".to_string() }),
        };
        let environment = span.tag(IkrellnTags::Environment.as_str());
        let mut path: Vec<String> = Vec::new();
        path.push(suite);
        path.push(class);
        Ok(
            TestResult {
                test_id: String::new(),
                path,
                name,
                trace_id: span.trace_id.clone(),
                date,
                status,
                duration,
                environment,
                components_called: Vec::new(),
                nb_spans: 0,
            },
        )
    }
}

/// Extraction is total on spans that carry every required field, and its
/// outcome is fixed by the span: two records extracted from one span carry
/// the same values.
pub proof fn lemma_extract_total_and_deterministic(span: Span, a: TestResult, b: TestResult)
    requires
        suite_of(span) is Some,
        class_of(span) is Some,
        name_of(span) is Some,
        span.timestamp is Some,
        status_of(span) is Some,
        span.duration is Some,
    ensures
        missing_tag(span) is None,
        extracted_from(a, span) && extracted_from(b, span) ==> same_record(a, b),
{
}

/// A span without `test.class` fails on that tag, whatever its other tags,
/// once a suite can be found for it.
pub proof fn lemma_missing_class(span: Span)
    requires
        suite_of(span) is Some,
        class_of(span) is None,
    ensures
        missing_tag(span) == Some(domain_key(IkrellnTags::Class)),
{
}

/// Without a `test.result` tag: an `error` value whose lowercase form is
/// `true` stands for `failure`, which reads as a failure; one whose lowercase
/// form is `false` stands for itself, and `false` is no status.
pub proof fn lemma_error_fallback(e: Seq<char>)
    ensures
        error_text(e, "true"@) == "failure"@,
        status_from_lowered("failure"@) == Some(TestStatus::Failure),
        error_text(e, "false"@) == e,
        status_from_lowered("false"@) is None,
{
    reveal_strlit("true");
    reveal_strlit("false");
    reveal_strlit("success");
    reveal_strlit("failure");
    reveal_strlit("skipped");
    assert("true"@.len() != "false"@.len());
    assert("success"@ != "failure"@) by {
        assert("success"@[0] != "failure"@[0]);
    }
    assert("false"@ != "success"@) by {
        assert("false"@.len() != "success"@.len());
    }
    assert("false"@ != "failure"@) by {
        assert("false"@.len() != "failure"@.len());
    }
    assert("false"@ != "skipped"@) by {
        assert("false"@.len() != "skipped"@.len());
    }
}

} // verus!
