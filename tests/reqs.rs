use marq::reqs::{detect_rfc2119_keywords, ReqLevel, ReqMetadata, ReqStatus, Rfc2119Keyword};

// RFC 2119 keyword detection tests

#[test]
fn test_detect_rfc2119_must() {
    let keywords = detect_rfc2119_keywords("Channel IDs MUST be allocated sequentially.");
    assert_eq!(keywords, vec![Rfc2119Keyword::Must]);
}

#[test]
fn test_detect_rfc2119_must_not() {
    let keywords = detect_rfc2119_keywords("Clients MUST NOT send invalid data.");
    assert_eq!(keywords, vec![Rfc2119Keyword::MustNot]);
}

#[test]
fn test_detect_rfc2119_should() {
    let keywords = detect_rfc2119_keywords("Implementations SHOULD use TLS.");
    assert_eq!(keywords, vec![Rfc2119Keyword::Should]);
}

#[test]
fn test_detect_rfc2119_should_not() {
    let keywords = detect_rfc2119_keywords("Clients SHOULD NOT retry immediately.");
    assert_eq!(keywords, vec![Rfc2119Keyword::ShouldNot]);
}

#[test]
fn test_detect_rfc2119_may() {
    let keywords = detect_rfc2119_keywords("Implementations MAY cache responses.");
    assert_eq!(keywords, vec![Rfc2119Keyword::May]);
}

#[test]
fn test_detect_rfc2119_multiple() {
    let keywords =
        detect_rfc2119_keywords("Clients MUST validate input and SHOULD log errors.");
    assert_eq!(keywords, vec![Rfc2119Keyword::Must, Rfc2119Keyword::Should]);
}

#[test]
fn test_detect_rfc2119_case_sensitive() {
    // Only uppercase keywords should match per RFC 2119
    let keywords = detect_rfc2119_keywords("The server must respond.");
    assert!(keywords.is_empty());
}

// Metadata coverage tests

#[test]
fn test_metadata_counts_for_coverage() {
    let mut meta = ReqMetadata::default();
    assert!(meta.counts_for_coverage()); // default is stable

    meta.status = Some(ReqStatus::Stable);
    assert!(meta.counts_for_coverage());

    meta.status = Some(ReqStatus::Deprecated);
    assert!(meta.counts_for_coverage());

    meta.status = Some(ReqStatus::Draft);
    assert!(!meta.counts_for_coverage());

    meta.status = Some(ReqStatus::Removed);
    assert!(!meta.counts_for_coverage());
}

#[test]
fn test_metadata_is_required() {
    let mut meta = ReqMetadata::default();
    assert!(meta.is_required()); // default level is Must

    meta.level = Some(ReqLevel::Must);
    assert!(meta.is_required());

    meta.level = Some(ReqLevel::Should);
    assert!(!meta.is_required());

    meta.level = Some(ReqLevel::May);
    assert!(!meta.is_required());
}
