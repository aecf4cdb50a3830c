use netblocks::fetch::CacheProbe;
use netblocks::fetch::FetchOutcome;
use netblocks::fetch::FetchPlan;
use netblocks::fetch::Precondition;
use netblocks::fetch::ResponseAction;
use netblocks::fetch::action_outcome;
use netblocks::fetch::plan_fetch;
use netblocks::fetch::plan_response;
use netblocks::fetch::sidecar_path;

fn probe() -> CacheProbe {
    CacheProbe {
        artifact_exists: true,
        sidecar_exists: true,
        sidecar_age: Some(10),
        sidecar_token: Some(String::from("\"abc123\"")),
        artifact_mtime: Some(1_445_412_480),
    }
}

#[test]
fn fresh_sidecar_is_cache_hit() {
    // Within the revalidation window no network request is planned, however
    // often the fetch is repeated.
    for age in [0u64, 10, 86_399, 86_400] {
        let mut q = probe();
        q.sidecar_age = Some(age);
        assert!(matches!(plan_fetch(&q, 86_400), FetchPlan::UseCache));
    }
}

#[test]
fn missing_artifact_forces_full_request() {
    let mut q = probe();
    q.artifact_exists = false;
    match plan_fetch(&q, 86_400) {
        FetchPlan::Request(rq) => {
            assert!(matches!(rq.precondition, Precondition::Unconditional));
            assert!(rq.drop_sidecar);
        }
        FetchPlan::UseCache => panic!("expected a request"),
    }
}

#[test]
fn stale_sidecar_revalidates_with_token() {
    let mut q = probe();
    q.sidecar_age = Some(86_401);
    match plan_fetch(&q, 86_400) {
        FetchPlan::Request(rq) => {
            match rq.precondition {
                Precondition::IfNoneMatch(t) => assert_eq!(t, "\"abc123\""),
                _ => panic!("expected If-None-Match"),
            }
            assert!(!rq.drop_sidecar);
        }
        FetchPlan::UseCache => panic!("expected a request"),
    }
}

#[test]
fn corrupt_token_is_discarded() {
    // A token that is no valid header value (an embedded newline) makes the
    // fetch drop the side-car and go unconditional — never an error.
    let mut q = probe();
    q.sidecar_age = Some(86_401);
    q.sidecar_token = Some(String::from("bad\ntoken"));
    match plan_fetch(&q, 86_400) {
        FetchPlan::Request(rq) => {
            assert!(matches!(rq.precondition, Precondition::Unconditional));
            assert!(rq.drop_sidecar);
        }
        FetchPlan::UseCache => panic!("expected a request"),
    }
}

#[test]
fn unreadable_token_is_discarded() {
    let mut q = probe();
    q.sidecar_age = Some(86_401);
    q.sidecar_token = None;
    match plan_fetch(&q, 86_400) {
        FetchPlan::Request(rq) => {
            assert!(matches!(rq.precondition, Precondition::Unconditional));
            assert!(rq.drop_sidecar);
        }
        FetchPlan::UseCache => panic!("expected a request"),
    }
}

#[test]
fn unreadable_sidecar_age_is_discarded() {
    let mut q = probe();
    q.sidecar_age = None;
    match plan_fetch(&q, 86_400) {
        FetchPlan::Request(rq) => {
            assert!(matches!(rq.precondition, Precondition::Unconditional));
            assert!(rq.drop_sidecar);
        }
        FetchPlan::UseCache => panic!("expected a request"),
    }
}

#[test]
fn no_sidecar_tries_if_modified_since() {
    let mut q = probe();
    q.sidecar_exists = false;
    match plan_fetch(&q, 86_400) {
        FetchPlan::Request(rq) => {
            match rq.precondition {
                Precondition::IfModifiedSince(s) => {
                    assert_eq!(s, "Wed, 21 Oct 2015 07:28:00 +0000");
                }
                _ => panic!("expected If-Modified-Since"),
            }
            assert!(!rq.drop_sidecar);
        }
        FetchPlan::UseCache => panic!("expected a request"),
    }
}

#[test]
fn no_sidecar_no_mtime_goes_unconditional() {
    let mut q = probe();
    q.sidecar_exists = false;
    q.artifact_mtime = None;
    match plan_fetch(&q, 86_400) {
        FetchPlan::Request(rq) => {
            assert!(matches!(rq.precondition, Precondition::Unconditional));
            assert!(!rq.drop_sidecar);
        }
        FetchPlan::UseCache => panic!("expected a request"),
    }
}

#[test]
fn not_modified_touches_existing_sidecar() {
    let r = plan_response(304, true, &Some(String::from("\"x\"")), &None);
    assert!(matches!(r, ResponseAction::TouchSidecar));
}

#[test]
fn not_modified_creates_missing_sidecar() {
    match plan_response(304, false, &Some(String::from("\"x\"")), &None) {
        ResponseAction::CreateSidecar(t) => assert_eq!(t, "\"x\""),
        _ => panic!("expected side-car creation"),
    }
    assert!(matches!(plan_response(304, false, &None, &None), ResponseAction::KeepAsIs));
}

#[test]
fn success_stores_with_parsed_mtime() {
    let lm = Some(String::from("Wed, 21 Oct 2015 07:28:00 GMT"));
    let etag = Some(String::from("\"y\""));
    match plan_response(200, false, &etag, &lm) {
        ResponseAction::StoreArtifact { set_mtime, token } => {
            assert_eq!(set_mtime, Some(1_445_412_480));
            assert_eq!(token, Some(String::from("\"y\"")));
        }
        _ => panic!("expected a store"),
    }
}

#[test]
fn success_ignores_unparsable_mtime() {
    let lm = Some(String::from("not a date"));
    match plan_response(200, false, &None, &lm) {
        ResponseAction::StoreArtifact { set_mtime, token } => {
            assert_eq!(set_mtime, None);
            assert_eq!(token, None);
        }
        _ => panic!("expected a store"),
    }
}

#[test]
fn other_status_purges() {
    match plan_response(503, true, &None, &None) {
        ResponseAction::Purge(status) => assert_eq!(status, 503),
        _ => panic!("expected a purge"),
    }
}

#[test]
fn outcome_per_action() {
    assert!(matches!(action_outcome(&ResponseAction::TouchSidecar), Some(FetchOutcome::Cached)));
    assert!(matches!(
        action_outcome(&ResponseAction::CreateSidecar(String::from("\"x\""))),
        Some(FetchOutcome::Cached)
    ));
    assert!(matches!(action_outcome(&ResponseAction::KeepAsIs), Some(FetchOutcome::Cached)));
    assert!(matches!(
        action_outcome(&ResponseAction::StoreArtifact { set_mtime: None, token: None }),
        Some(FetchOutcome::Downloaded)
    ));
    assert!(action_outcome(&ResponseAction::Purge(404)).is_none());
}

#[test]
fn revalidation_round() {
    // Outside the window with a valid token: exactly one request carrying
    // If-None-Match; a 304 answer refreshes only the side-car and reports a
    // cache hit.
    let mut q = probe();
    q.sidecar_age = Some(1_000_000);
    let plan = plan_fetch(&q, 86_400);
    let rq = match plan {
        FetchPlan::Request(rq) => rq,
        FetchPlan::UseCache => panic!("expected a request"),
    };
    assert!(matches!(rq.precondition, Precondition::IfNoneMatch(_)));
    let action = plan_response(304, true, &None, &None);
    assert!(matches!(action, ResponseAction::TouchSidecar));
    assert!(matches!(action_outcome(&action), Some(FetchOutcome::Cached)));
}

#[test]
fn sidecar_path_appends_suffix() {
    let p = sidecar_path(".cache/abc-latest-bview.gz");
    assert_eq!(p, ".cache/abc-latest-bview.gz.etag");
    assert_ne!(p, ".cache/abc-latest-bview.gz");
}
