use dirprobe::model::Candidate;
use dirprobe::model::Target;
use dirprobe::resolve::resolve;

fn cand(s: &str) -> Candidate {
    Candidate::new(String::from(s)).expect("candidate should be accepted")
}

#[test]
fn resolve_unprefixed_candidate() {
    let target = Target::new("https://example.test");
    let url = resolve(&target, &cand("admin"));
    assert_eq!(url, "https://example.test/admin");
}

#[test]
fn resolve_prefixed_candidate() {
    let target = Target::new("https://example.test");
    let url = resolve(&target, &cand("/login"));
    assert_eq!(url, "https://example.test/login");
}

#[test]
fn resolve_reserved_characters_pass_through() {
    let target = Target::new("https://example.test");
    let url = resolve(&target, &cand("a b"));
    assert_eq!(url, "https://example.test/a b");
    let url2 = resolve(&target, &cand("q?x=1&y=2"));
    assert_eq!(url2, "https://example.test/q?x=1&y=2");
}

#[test]
fn resolve_is_idempotent() {
    let target = Target::new("https://example.test");
    let candidate = cand("admin");
    let first = resolve(&target, &candidate);
    let second = resolve(&target, &candidate);
    assert_eq!(first, second);
    assert_eq!(target.as_str(), "https://example.test");
    assert_eq!(candidate.as_str(), "admin");
}

#[test]
fn target_strips_trailing_slashes() {
    assert_eq!(Target::new("https://example.test/").as_str(), "https://example.test");
    assert_eq!(Target::new("https://example.test///").as_str(), "https://example.test");
    assert_eq!(Target::new("https://example.test").as_str(), "https://example.test");
    assert_eq!(Target::new("").as_str(), "");
    assert_eq!(Target::new("///").as_str(), "");
}

#[test]
fn candidate_rejects_empty_and_newline() {
    assert!(Candidate::new(String::new()).is_none());
    assert!(Candidate::new(String::from("a\nb")).is_none());
    assert!(Candidate::new(String::from("\n")).is_none());
    let ok = Candidate::new(String::from("admin")).unwrap();
    assert_eq!(ok.as_str(), "admin");
}
