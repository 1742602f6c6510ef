use ikrelln::tags::{IkrellnTags, OpenTracingTag};
use ikrelln::text::str_eq;

#[test]
fn open_tracing_keys_round_trip() {
    let all = [
        OpenTracingTag::Component,
        OpenTracingTag::DbInstance,
        OpenTracingTag::DbStatement,
        OpenTracingTag::DbType,
        OpenTracingTag::DbUser,
        OpenTracingTag::Error,
        OpenTracingTag::HttpMethod,
        OpenTracingTag::HttpStatusCode,
        OpenTracingTag::HttpUrl,
        OpenTracingTag::MessageBusDestination,
        OpenTracingTag::PeerAddress,
        OpenTracingTag::PeerHostname,
        OpenTracingTag::PeerIpv4,
        OpenTracingTag::PeerIpv6,
        OpenTracingTag::PeerPort,
        OpenTracingTag::PeerService,
        OpenTracingTag::SamplingPriority,
        OpenTracingTag::SpanKind,
    ];
    for t in all.iter() {
        assert_eq!(OpenTracingTag::from_str(t.as_str()), Some(*t));
    }
    assert_eq!(OpenTracingTag::HttpStatusCode.as_str(), "http.status_code");
    assert_eq!(OpenTracingTag::MessageBusDestination.as_str(), "message_bus.destination");
}

#[test]
fn domain_keys_round_trip() {
    let all = [
        IkrellnTags::Class,
        IkrellnTags::Environment,
        IkrellnTags::Name,
        IkrellnTags::Result,
        IkrellnTags::StepParameters,
        IkrellnTags::StepStatus,
        IkrellnTags::StepType,
        IkrellnTags::Suite,
    ];
    for t in all.iter() {
        assert_eq!(IkrellnTags::from_str(t.as_str()), Some(*t));
    }
    assert_eq!(IkrellnTags::Suite.as_str(), "test.suite");
    assert_eq!(IkrellnTags::Class.as_str(), "test.class");
    assert_eq!(IkrellnTags::Result.as_str(), "test.result");
}

#[test]
fn lookup_is_exact_and_case_sensitive() {
    assert_eq!(OpenTracingTag::from_str("Error"), None);
    assert_eq!(OpenTracingTag::from_str(" error"), None);
    assert_eq!(OpenTracingTag::from_str("error"), Some(OpenTracingTag::Error));
    assert_eq!(IkrellnTags::from_str("TEST.SUITE"), None);
    assert_eq!(IkrellnTags::from_str("test.suite "), None);
    assert_eq!(IkrellnTags::from_str(""), None);
}

#[test]
fn taxonomies_are_disjoint() {
    assert_eq!(IkrellnTags::from_str("error"), None);
    assert_eq!(OpenTracingTag::from_str("test.result"), None);
}

#[test]
fn str_eq_compares_characters() {
    assert!(str_eq("héllo", "héllo"));
    assert!(!str_eq("héllo", "hello"));
    assert!(!str_eq("abc", "ab"));
    assert!(str_eq("", ""));
}
