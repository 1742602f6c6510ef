//! The tag taxonomy: the well-known OpenTracing tags and the test-domain
//! tags, each mapped to its literal key.

use vstd::prelude::*;
use crate::text::str_eq;

verus! {

/// Well-known tracing tags of the OpenTracing semantic conventions.
#[derive(Clone, Copy, Debug, PartialEq, Eq, Structural)]
pub enum OpenTracingTag {
    Component,
    DbInstance,
    DbStatement,
    DbType,
    DbUser,
    Error,
    HttpMethod,
    HttpStatusCode,
    HttpUrl,
    MessageBusDestination,
    PeerAddress,
    PeerHostname,
    PeerIpv4,
    PeerIpv6,
    PeerPort,
    PeerService,
    SamplingPriority,
    SpanKind,
}

/// The literal key of each tag.
pub open spec fn open_tracing_key(t: OpenTracingTag) -> Seq<char> {
    match t {
        OpenTracingTag::Component => "component"@,
        OpenTracingTag::DbInstance => "db.instance"@,
        OpenTracingTag::DbStatement => "db.statement"@,
        OpenTracingTag::DbType => "db.type"@,
        OpenTracingTag::DbUser => "db.user"@,
        OpenTracingTag::Error => "error"@,
        OpenTracingTag::HttpMethod => "http.method"@,
        OpenTracingTag::HttpStatusCode => "http.status_code"@,
        OpenTracingTag::HttpUrl => "http.url"@,
        OpenTracingTag::MessageBusDestination => "message_bus.destination"@,
        OpenTracingTag::PeerAddress => "peer.address"@,
        OpenTracingTag::PeerHostname => "peer.hostname"@,
        OpenTracingTag::PeerIpv4 => "peer.ipv4"@,
        OpenTracingTag::PeerIpv6 => "peer.ipv6"@,
        OpenTracingTag::PeerPort => "peer.port"@,
        OpenTracingTag::PeerService => "peer.service"@,
        OpenTracingTag::SamplingPriority => "sampling.priority"@,
        OpenTracingTag::SpanKind => "span.kind"@,
    }
}

/// The tag whose key is exactly `s`, if any.
pub open spec fn resolve_open_tracing(s: Seq<char>) -> Option<OpenTracingTag> {
    if s == "component"@ {
        Some(OpenTracingTag::Component)
    } else if s == "db.instance"@ {
        Some(OpenTracingTag::DbInstance)
    } else if s == "db.statement"@ {
        Some(OpenTracingTag::DbStatement)
    } else if s == "db.type"@ {
        Some(OpenTracingTag::DbType)
    } else if s == "db.user"@ {
        Some(OpenTracingTag::DbUser)
    } else if s == "error"@ {
        Some(OpenTracingTag::Error)
    } else if s == "http.method"@ {
        Some(OpenTracingTag::HttpMethod)
    } else if s == "http.status_code"@ {
        Some(OpenTracingTag::HttpStatusCode)
    } else if s == "http.url"@ {
        Some(OpenTracingTag::HttpUrl)
    } else if s == "message_bus.destination"@ {
        Some(OpenTracingTag::MessageBusDestination)
    } else if s == "peer.address"@ {
        Some(OpenTracingTag::PeerAddress)
    } else if s == "peer.hostname"@ {
        Some(OpenTracingTag::PeerHostname)
    } else if s == "peer.ipv4"@ {
        Some(OpenTracingTag::PeerIpv4)
    } else if s == "peer.ipv6"@ {
        Some(OpenTracingTag::PeerIpv6)
    } else if s == "peer.port"@ {
        Some(OpenTracingTag::PeerPort)
    } else if s == "peer.service"@ {
        Some(OpenTracingTag::PeerService)
    } else if s == "sampling.priority"@ {
        Some(OpenTracingTag::SamplingPriority)
    } else if s == "span.kind"@ {
        Some(OpenTracingTag::SpanKind)
    } else {
        None
    }
}

impl OpenTracingTag {
    /// The literal key of the tag.
    pub fn as_str(&self) -> (r: &'static str)
        ensures
            r@ == open_tracing_key(*self),
    {
        match self {
            OpenTracingTag::Component => "component",
            OpenTracingTag::DbInstance => "db.instance",
            OpenTracingTag::DbStatement => "db.statement",
            OpenTracingTag::DbType => "db.type",
            OpenTracingTag::DbUser => "db.user",
            OpenTracingTag::Error => "error",
            OpenTracingTag::HttpMethod => "http.method",
            OpenTracingTag::HttpStatusCode => "http.status_code",
            OpenTracingTag::HttpUrl => "http.url",
            OpenTracingTag::MessageBusDestination => "message_bus.destination",
            OpenTracingTag::PeerAddress => "peer.address",
            OpenTracingTag::PeerHostname => "peer.hostname",
            OpenTracingTag::PeerIpv4 => "peer.ipv4",
            OpenTracingTag::PeerIpv6 => "peer.ipv6",
            OpenTracingTag::PeerPort => "peer.port",
            OpenTracingTag::PeerService => "peer.service",
            OpenTracingTag::SamplingPriority => "sampling.priority",
            OpenTracingTag::SpanKind => "span.kind",
        }
    }

    /// Exact, case-sensitive lookup of a tag by its key.
    pub fn from_str(s: &str) -> (r: Option<OpenTracingTag>)
        ensures
            r == resolve_open_tracing(s@),
    {
        if str_eq(s, "component") {
            return Some(OpenTracingTag::Component);
        }
        if str_eq(s, "db.instance") {
            return Some(OpenTracingTag::DbInstance);
        }
        if str_eq(s, "db.statement") {
            return Some(OpenTracingTag::DbStatement);
        }
        if str_eq(s, "db.type") {
            return Some(OpenTracingTag::DbType);
        }
        if str_eq(s, "db.user") {
            return Some(OpenTracingTag::DbUser);
        }
        if str_eq(s, "error") {
            return Some(OpenTracingTag::Error);
        }
        if str_eq(s, "http.method") {
            return Some(OpenTracingTag::HttpMethod);
        }
        if str_eq(s, "http.status_code") {
            return Some(OpenTracingTag::HttpStatusCode);
        }
        if str_eq(s, "http.url") {
            return Some(OpenTracingTag::HttpUrl);
        }
        if str_eq(s, "message_bus.destination") {
            return Some(OpenTracingTag::MessageBusDestination);
        }
        if str_eq(s, "peer.address") {
            return Some(OpenTracingTag::PeerAddress);
        }
        if str_eq(s, "peer.hostname") {
            return Some(OpenTracingTag::PeerHostname);
        }
        if str_eq(s, "peer.ipv4") {
            return Some(OpenTracingTag::PeerIpv4);
        }
        if str_eq(s, "peer.ipv6") {
            return Some(OpenTracingTag::PeerIpv6);
        }
        if str_eq(s, "peer.port") {
            return Some(OpenTracingTag::PeerPort);
        }
        if str_eq(s, "peer.service") {
            return Some(OpenTracingTag::PeerService);
        }
        if str_eq(s, "sampling.priority") {
            return Some(OpenTracingTag::SamplingPriority);
        }
        if str_eq(s, "span.kind") {
            return Some(OpenTracingTag::SpanKind);
        }
        None
    }
}

/// Tags that describe a test execution.
#[derive(Clone, Copy, Debug, PartialEq, Eq, Structural)]
pub enum IkrellnTags {
    Class,
    Environment,
    Name,
    Result,
    StepParameters,
    StepStatus,
    StepType,
    Suite,
}

/// The literal key of each tag.
pub open spec fn domain_key(t: IkrellnTags) -> Seq<char> {
    match t {
        IkrellnTags::Class => "test.class"@,
        IkrellnTags::Environment => "test.environment"@,
        IkrellnTags::Name => "test.name"@,
        IkrellnTags::Result => "test.result"@,
        IkrellnTags::StepParameters => "test.step_parameters"@,
        IkrellnTags::StepStatus => "test.step_status"@,
        IkrellnTags::StepType => "test.step_type"@,
        IkrellnTags::Suite => "test.suite"@,
    }
}

/// The tag whose key is exactly `s`, if any.
pub open spec fn resolve_domain(s: Seq<char>) -> Option<IkrellnTags> {
    if s == "test.class"@ {
        Some(IkrellnTags::Class)
    } else if s == "test.environment"@ {
        Some(IkrellnTags::Environment)
    } else if s == "test.name"@ {
        Some(IkrellnTags::Name)
    } else if s == "test.result"@ {
        Some(IkrellnTags::Result)
    } else if s == "test.step_parameters"@ {
        Some(IkrellnTags::StepParameters)
    } else if s == "test.step_status"@ {
        Some(IkrellnTags::StepStatus)
    } else if s == "test.step_type"@ {
        Some(IkrellnTags::StepType)
    } else if s == "test.suite"@ {
        Some(IkrellnTags::Suite)
    } else {
        None
    }
}

impl IkrellnTags {
    /// The literal key of the tag.
    pub fn as_str(&self) -> (r: &'static str)
        ensures
            r@ == domain_key(*self),
    {
        match self {
            IkrellnTags::Class => "test.class",
            IkrellnTags::Environment => "test.environment",
            IkrellnTags::Name => "test.name",
            IkrellnTags::Result => "test.result",
            IkrellnTags::StepParameters => "test.step_parameters",
            IkrellnTags::StepStatus => "test.step_status",
            IkrellnTags::StepType => "test.step_type",
            IkrellnTags::Suite => "test.suite",
        }
    }

    /// Exact, case-sensitive lookup of a tag by its key.
    pub fn from_str(s: &str) -> (r: Option<IkrellnTags>)
        ensures
            r == resolve_domain(s@),
    {
        if str_eq(s, "test.class") {
            return Some(IkrellnTags::Class);
        }
        if str_eq(s, "test.environment") {
            return Some(IkrellnTags::Environment);
        }
        if str_eq(s, "test.name") {
            return Some(IkrellnTags::Name);
        }
        if str_eq(s, "test.result") {
            return Some(IkrellnTags::Result);
        }
        if str_eq(s, "test.step_parameters") {
            return Some(IkrellnTags::StepParameters);
        }
        if str_eq(s, "test.step_status") {
            return Some(IkrellnTags::StepStatus);
        }
        if str_eq(s, "test.step_type") {
            return Some(IkrellnTags::StepType);
        }
        if str_eq(s, "test.suite") {
            return Some(IkrellnTags::Suite);
        }
        None
    }
}

/// Resolving the key of a well-known tag gives that tag back, and a key
/// that resolves to a tag is that tag's key.
pub proof fn lemma_open_tracing_round_trip(t: OpenTracingTag, s: Seq<char>)
    ensures
        resolve_open_tracing(open_tracing_key(t)) == Some(t),
        resolve_open_tracing(s) matches Some(u) ==> open_tracing_key(u) == s,
{
    reveal_strlit("component");
    reveal_strlit("db.instance");
    reveal_strlit("db.statement");
    reveal_strlit("db.type");
    reveal_strlit("db.user");
    reveal_strlit("error");
    reveal_strlit("http.method");
    reveal_strlit("http.status_code");
    reveal_strlit("http.url");
    reveal_strlit("message_bus.destination");
    reveal_strlit("peer.address");
    reveal_strlit("peer.hostname");
    reveal_strlit("peer.ipv4");
    reveal_strlit("peer.ipv6");
    reveal_strlit("peer.port");
    reveal_strlit("peer.service");
    reveal_strlit("sampling.priority");
    reveal_strlit("span.kind");
    assert("component"@.len() == 9);
    assert("db.instance"@.len() == 11);
    assert("db.statement"@.len() == 12);
    assert("db.type"@.len() == 7);
    assert("db.user"@.len() == 7);
    assert("error"@.len() == 5);
    assert("http.method"@.len() == 11);
    assert("http.status_code"@.len() == 16);
    assert("http.url"@.len() == 8);
    assert("message_bus.destination"@.len() == 23);
    assert("peer.address"@.len() == 12);
    assert("peer.hostname"@.len() == 13);
    assert("peer.ipv4"@.len() == 9);
    assert("peer.ipv6"@.len() == 9);
    assert("peer.port"@.len() == 9);
    assert("peer.service"@.len() == 12);
    assert("sampling.priority"@.len() == 17);
    assert("span.kind"@.len() == 9);
    assert("component"@[0] != "peer.ipv4"@[0]);
    assert("component"@[0] != "peer.ipv6"@[0]);
    assert("component"@[0] != "peer.port"@[0]);
    assert("component"@[0] != "span.kind"@[0]);
    assert("db.instance"@[0] != "http.method"@[0]);
    assert("db.statement"@[0] != "peer.address"@[0]);
    assert("db.statement"@[0] != "peer.service"@[0]);
    assert("db.type"@[3] != "db.user"@[3]);
    assert("peer.address"@[5] != "peer.service"@[5]);
    assert("peer.ipv4"@[8] != "peer.ipv6"@[8]);
    assert("peer.ipv4"@[5] != "peer.port"@[5]);
    assert("peer.ipv4"@[0] != "span.kind"@[0]);
    assert("peer.ipv6"@[5] != "peer.port"@[5]);
    assert("peer.ipv6"@[0] != "span.kind"@[0]);
    assert("peer.port"@[0] != "span.kind"@[0]);
}

/// Resolving the key of a domain tag gives that tag back, and a key that
/// resolves to a tag is that tag's key.
pub proof fn lemma_domain_round_trip(t: IkrellnTags, s: Seq<char>)
    ensures
        resolve_domain(domain_key(t)) == Some(t),
        resolve_domain(s) matches Some(u) ==> domain_key(u) == s,
{
    reveal_strlit("test.class");
    reveal_strlit("test.environment");
    reveal_strlit("test.name");
    reveal_strlit("test.result");
    reveal_strlit("test.step_parameters");
    reveal_strlit("test.step_status");
    reveal_strlit("test.step_type");
    reveal_strlit("test.suite");
    assert("test.class"@.len() == 10);
    assert("test.environment"@.len() == 16);
    assert("test.name"@.len() == 9);
    assert("test.result"@.len() == 11);
    assert("test.step_parameters"@.len() == 20);
    assert("test.step_status"@.len() == 16);
    assert("test.step_type"@.len() == 14);
    assert("test.suite"@.len() == 10);
    assert("test.class"@[5] != "test.suite"@[5]);
    assert("test.environment"@[5] != "test.step_status"@[5]);
}

/// No key belongs to both enumerations.
pub proof fn lemma_taxonomies_disjoint(s: Seq<char>)
    ensures
        !(resolve_open_tracing(s) is Some && resolve_domain(s) is Some),
{
    reveal_strlit("component");
    reveal_strlit("db.instance");
    reveal_strlit("db.statement");
    reveal_strlit("db.type");
    reveal_strlit("db.user");
    reveal_strlit("error");
    reveal_strlit("http.method");
    reveal_strlit("http.status_code");
    reveal_strlit("http.url");
    reveal_strlit("message_bus.destination");
    reveal_strlit("peer.address");
    reveal_strlit("peer.hostname");
    reveal_strlit("peer.ipv4");
    reveal_strlit("peer.ipv6");
    reveal_strlit("peer.port");
    reveal_strlit("peer.service");
    reveal_strlit("sampling.priority");
    reveal_strlit("span.kind");
    reveal_strlit("test.class");
    reveal_strlit("test.environment");
    reveal_strlit("test.name");
    reveal_strlit("test.result");
    reveal_strlit("test.step_parameters");
    reveal_strlit("test.step_status");
    reveal_strlit("test.step_type");
    reveal_strlit("test.suite");
    assert("component"@.len() == 9);
    assert("db.instance"@.len() == 11);
    assert("db.statement"@.len() == 12);
    assert("db.type"@.len() == 7);
    assert("db.user"@.len() == 7);
    assert("error"@.len() == 5);
    assert("http.method"@.len() == 11);
    assert("http.status_code"@.len() == 16);
    assert("http.url"@.len() == 8);
    assert("message_bus.destination"@.len() == 23);
    assert("peer.address"@.len() == 12);
    assert("peer.hostname"@.len() == 13);
    assert("peer.ipv4"@.len() == 9);
    assert("peer.ipv6"@.len() == 9);
    assert("peer.port"@.len() == 9);
    assert("peer.service"@.len() == 12);
    assert("sampling.priority"@.len() == 17);
    assert("span.kind"@.len() == 9);
    assert("test.class"@.len() == 10);
    assert("test.environment"@.len() == 16);
    assert("test.name"@.len() == 9);
    assert("test.result"@.len() == 11);
    assert("test.step_parameters"@.len() == 20);
    assert("test.step_status"@.len() == 16);
    assert("test.step_type"@.len() == 14);
    assert("test.suite"@.len() == 10);
    assert("component"@[0] != "peer.ipv4"@[0]);
    assert("component"@[0] != "peer.ipv6"@[0]);
    assert("component"@[0] != "peer.port"@[0]);
    assert("component"@[0] != "span.kind"@[0]);
    assert("component"@[0] != "test.name"@[0]);
    assert("db.instance"@[0] != "http.method"@[0]);
    assert("db.instance"@[0] != "test.result"@[0]);
    assert("db.statement"@[0] != "peer.address"@[0]);
    assert("db.statement"@[0] != "peer.service"@[0]);
    assert("db.type"@[3] != "db.user"@[3]);
    assert("http.method"@[0] != "test.result"@[0]);
    assert("http.status_code"@[0] != "test.environment"@[0]);
    assert("http.status_code"@[0] != "test.step_status"@[0]);
    assert("peer.address"@[5] != "peer.service"@[5]);
    assert("peer.ipv4"@[8] != "peer.ipv6"@[8]);
    assert("peer.ipv4"@[5] != "peer.port"@[5]);
    assert("peer.ipv4"@[0] != "span.kind"@[0]);
    assert("peer.ipv4"@[0] != "test.name"@[0]);
    assert("peer.ipv6"@[5] != "peer.port"@[5]);
    assert("peer.ipv6"@[0] != "span.kind"@[0]);
    assert("peer.ipv6"@[0] != "test.name"@[0]);
    assert("peer.port"@[0] != "span.kind"@[0]);
    assert("peer.port"@[0] != "test.name"@[0]);
    assert("span.kind"@[0] != "test.name"@[0]);
    assert("test.class"@[5] != "test.suite"@[5]);
    assert("test.environment"@[5] != "test.step_status"@[5]);
}

} // verus!
