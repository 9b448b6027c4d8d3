use dirprobe::engine::Engine;
use dirprobe::model::Candidate;
use dirprobe::model::Config;
use dirprobe::model::ErrorKind;
use dirprobe::model::Outcome;
use dirprobe::model::ProbeResponse;
use dirprobe::model::SetupError;
use dirprobe::model::Target;
use dirprobe::model::classify;

fn cands(names: &[&str]) -> Vec<Candidate> {
    names.iter().map(|s| Candidate::new(String::from(*s)).unwrap()).collect()
}

fn config(concurrency: usize, max_candidates: Option<usize>) -> Config {
    Config {
        concurrency,
        timeout_ms: 5000,
        user_agent: String::from("probe-test"),
        max_candidates,
    }
}

fn outcome_pair(o: &Outcome) -> (String, Option<u16>) {
    match o {
        Outcome::Success { candidate, status } => (candidate.clone(), Some(*status)),
        Outcome::Failure { candidate, .. } => (candidate.clone(), None),
    }
}

#[test]
fn stubbed_statuses_yield_expected_outcome_set() {
    let target = Target::new("https://example.test");
    let engine = Engine::new(target, cands(&["a", "secret", "b"]), config(2, None));
    let mut engine = match engine {
        Ok(e) => e,
        Err(_) => panic!("setup should succeed"),
    };

    // Two slots fill up, then the third dispatch must wait.
    let (i0, u0) = engine.dispatch_next().unwrap();
    let (i1, u1) = engine.dispatch_next().unwrap();
    assert_eq!((i0, u0.as_str()), (0, "https://example.test/a"));
    assert_eq!((i1, u1.as_str()), (1, "https://example.test/secret"));
    assert!(engine.dispatch_next().is_none());

    // Completions arrive out of submission order; "secret" gets 200,
    // everything else 404.
    assert!(engine.complete(1, ProbeResponse::Status(200)));
    let (i2, u2) = engine.dispatch_next().unwrap();
    assert_eq!((i2, u2.as_str()), (2, "https://example.test/b"));
    assert!(engine.complete(2, ProbeResponse::Status(404)));
    assert!(engine.complete(0, ProbeResponse::Status(404)));
    assert!(engine.is_done());

    let mut got: Vec<(String, Option<u16>)> =
        engine.outcomes().iter().map(outcome_pair).collect();
    got.sort();
    let mut want = vec![
        ("a".to_string(), Some(404)),
        ("secret".to_string(), Some(200)),
        ("b".to_string(), Some(404)),
    ];
    want.sort();
    assert_eq!(got, want);
}

#[test]
fn one_outcome_per_candidate_round_trip() {
    let target = Target::new("https://example.test");
    let names = ["one", "two", "three", "four", "five"];
    let mut engine = Engine::new(target, cands(&names), config(3, None)).unwrap();
    loop {
        while let Some((idx, _url)) = engine.dispatch_next() {
            assert!(engine.complete(idx, ProbeResponse::Status(204)));
        }
        if engine.is_done() {
            break;
        }
    }
    assert_eq!(engine.processed(), names.len());
    let mut got: Vec<String> =
        engine.outcomes().iter().map(|o| outcome_pair(o).0).collect();
    got.sort();
    let mut want: Vec<String> = names.iter().map(|s| s.to_string()).collect();
    want.sort();
    assert_eq!(got, want);
}

#[test]
fn concurrency_one_preserves_submission_order() {
    let target = Target::new("https://example.test");
    let names = ["x", "y", "z"];
    let mut engine = Engine::new(target, cands(&names), config(1, None)).unwrap();
    while let Some((idx, _url)) = engine.dispatch_next() {
        // With one slot, nothing else can be dispatched meanwhile.
        assert!(engine.dispatch_next().is_none());
        assert!(engine.complete(idx, ProbeResponse::Status(200)));
    }
    assert!(engine.is_done());
    let got: Vec<String> = engine.outcomes().iter().map(|o| outcome_pair(o).0).collect();
    assert_eq!(got, vec!["x".to_string(), "y".to_string(), "z".to_string()]);
}

#[test]
fn empty_candidate_sequence_is_immediately_done() {
    let target = Target::new("https://example.test");
    let mut engine = Engine::new(target, Vec::new(), config(4, None)).unwrap();
    assert!(engine.is_done());
    assert!(engine.dispatch_next().is_none());
    assert_eq!(engine.processed(), 0);
    assert!(engine.outcomes().is_empty());
}

#[test]
fn transport_failures_do_not_abort_the_run() {
    let target = Target::new("https://example.test");
    let names = ["alpha", "xFAILx", "beta", "FAILtoo", "gamma"];
    let mut engine = Engine::new(target, cands(&names), config(2, None)).unwrap();
    loop {
        while let Some((idx, _url)) = engine.dispatch_next() {
            let response = if names[idx].contains("FAIL") {
                ProbeResponse::Transport(ErrorKind::Timeout, String::from("timed out"))
            } else {
                ProbeResponse::Status(200)
            };
            assert!(engine.complete(idx, response));
        }
        if engine.is_done() {
            break;
        }
    }
    assert_eq!(engine.processed(), names.len());
    for outcome in engine.outcomes() {
        match outcome {
            Outcome::Success { candidate, status } => {
                assert!(!candidate.contains("FAIL"));
                assert_eq!(*status, 200);
            }
            Outcome::Failure { candidate, kind, .. } => {
                assert!(candidate.contains("FAIL"));
                assert_eq!(*kind, ErrorKind::Timeout);
            }
        }
    }
}

#[test]
fn cancellation_stops_dispatch_and_bounds_outcomes() {
    let target = Target::new("https://example.test");
    let names = ["a", "b", "c", "d", "e"];
    let mut engine = Engine::new(target, cands(&names), config(2, None)).unwrap();
    let (i0, _) = engine.dispatch_next().unwrap();
    let (i1, _) = engine.dispatch_next().unwrap();
    engine.cancel();
    assert!(engine.dispatch_next().is_none());
    assert!(!engine.is_done());
    assert!(engine.complete(i0, ProbeResponse::Status(301)));
    assert!(engine.complete(i1, ProbeResponse::Status(500)));
    assert!(engine.is_done());
    assert!(engine.processed() <= 2);
}

#[test]
fn zero_concurrency_is_a_setup_error() {
    let target = Target::new("https://example.test");
    let result = Engine::new(target, cands(&["a"]), config(0, None));
    match result {
        Err(e) => assert_eq!(e, SetupError::ZeroConcurrency),
        Ok(_) => panic!("zero concurrency must be rejected"),
    }
}

#[test]
fn max_candidates_caps_the_run() {
    let target = Target::new("https://example.test");
    let names = ["a", "b", "c", "d", "e"];
    let mut engine = Engine::new(target, cands(&names), config(2, Some(3))).unwrap();
    assert_eq!(engine.target().as_str(), "https://example.test");
    assert_eq!(engine.concurrency(), 2);
    loop {
        while let Some((idx, _url)) = engine.dispatch_next() {
            assert!(engine.complete(idx, ProbeResponse::Status(200)));
        }
        if engine.is_done() {
            break;
        }
    }
    assert_eq!(engine.processed(), 3);
    let got: Vec<String> = engine.into_outcomes().iter().map(|o| outcome_pair(o).0).collect();
    assert_eq!(got.len(), 3);
    for name in ["d", "e"] {
        assert!(!got.contains(&name.to_string()));
    }
}

#[test]
fn unknown_or_repeated_index_is_rejected() {
    let target = Target::new("https://example.test");
    let mut engine = Engine::new(target, cands(&["a", "b"]), config(2, None)).unwrap();
    assert!(!engine.complete(0, ProbeResponse::Status(200)));
    let (i0, _) = engine.dispatch_next().unwrap();
    assert!(engine.complete(i0, ProbeResponse::Status(200)));
    assert!(!engine.complete(i0, ProbeResponse::Status(200)));
    assert_eq!(engine.processed(), 1);
}

#[test]
fn classify_keeps_status_and_failure_details() {
    let c = Candidate::new(String::from("admin")).unwrap();
    match classify(&c, ProbeResponse::Status(404)) {
        Outcome::Success { candidate, status } => {
            assert_eq!(candidate, "admin");
            assert_eq!(status, 404);
        }
        Outcome::Failure { .. } => panic!("an HTTP response is a successful probe"),
    }
    let kinds = [
        ErrorKind::Timeout,
        ErrorKind::Connection,
        ErrorKind::Dns,
        ErrorKind::Tls,
        ErrorKind::Other,
    ];
    for kind in kinds {
        let resp = ProbeResponse::Transport(kind, String::from("boom"));
        match classify(&c, resp) {
            Outcome::Failure { candidate, kind: k, message } => {
                assert_eq!(candidate, "admin");
                assert_eq!(k, kind);
                assert_eq!(message, "boom");
            }
            Outcome::Success { .. } => panic!("a transport error is a failure"),
        }
    }
}
