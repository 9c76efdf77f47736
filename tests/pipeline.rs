use readur::ingest::enqueue_changes;
use readur::discovery::{entries_from_responses, entry_from_response, parse_decimal, parse_http_date, RawResponse};
use readur::ocr::{is_image_extension, ExtractionRoute, OcrService};
use readur::queue::{retry_delay, ExtractError, JobState, OcrQueue, Priority, QueueError};
use readur::schedule::{SourceScheduler, TriggerOutcome};
use readur::sync::{ChangeKind, DiscoveredEntry, Fingerprint, PassOutcome, PassPhase, SyncEngine};
use readur::text::{str_contains, str_eq};
use readur::throttle::{Admit, Scope, ThrottleError, ThrottleRegistry, Throttler};
use readur::users::{check_delete_allowed, require_admin, store_error, AuthUser, StoreOp, User, UserError, UserRole};

fn tagged(path: &str, tag: &str) -> DiscoveredEntry {
    DiscoveredEntry {
        path: path.to_string(),
        size: 10,
        last_modified: 100,
        fingerprint: Fingerprint::Tag(tag.to_string()),
        reliable: true,
        is_directory: false,
    }
}

fn run_pass(engine: &mut SyncEngine, listing: Vec<DiscoveredEntry>) -> Vec<(ChangeKind, String)> {
    assert!(engine.request_pass());
    let events = engine.discovery_succeeded(listing);
    engine.finish_commit(PassOutcome::Committed);
    events.into_iter().map(|e| (e.kind, e.path)).collect()
}

fn admin(id: u128) -> AuthUser {
    AuthUser {
        user: User { id, username: "root".to_string(), email: "r@x".to_string(), role: UserRole::Admin },
    }
}

#[test]
fn image_file_by_extension_any_case() {
    let ocr = OcrService::new();
    assert_eq!(ocr.default_lang, "eng");
    assert!(ocr.is_image_file("scans/page.PNG"));
    assert!(ocr.is_image_file("photo.jpeg"));
    assert!(ocr.is_image_file("anim.Gif"));
    assert!(!ocr.is_image_file("notes.txt"));
    assert!(!ocr.is_image_file("README"));
    assert!(!ocr.is_image_file(".png"));
    assert!(is_image_extension("tiff"));
    assert!(!is_image_extension("TIFF"));
}

#[test]
fn extraction_route_by_mime_then_extension() {
    let ocr = OcrService::new();
    assert_eq!(ocr.extraction_route("a.bin", "application/pdf"), ExtractionRoute::Pdf);
    assert_eq!(ocr.extraction_route("a.bin", "image/tiff"), ExtractionRoute::Image);
    assert_eq!(ocr.extraction_route("a.bin", "text/plain"), ExtractionRoute::PlainText);
    assert_eq!(ocr.extraction_route("a.BMP", "application/octet-stream"), ExtractionRoute::Image);
    assert_eq!(ocr.extraction_route("a.doc", "application/msword"), ExtractionRoute::Unsupported);
}

#[test]
fn string_helpers() {
    assert!(str_eq("abc", "abc"));
    assert!(!str_eq("abc", "abd"));
    assert!(str_contains("duplicate key: username unique", "unique"));
    assert!(str_contains("x", ""));
    assert!(!str_contains("uniq", "unique"));
}

#[test]
fn webdav_two_pass_scenario() {
    let mut engine = SyncEngine::new(1, Vec::new());
    let first = run_pass(&mut engine, vec![tagged("a.pdf", "\"1\""), tagged("b.png", "\"2\"")]);
    assert_eq!(
        first,
        vec![(ChangeKind::New, "a.pdf".to_string()), (ChangeKind::New, "b.png".to_string())]
    );
    let mut queue = OcrQueue::new(10, 1, 3, 2, 60);
    for (_, path) in &first {
        assert!(queue.enqueue(1, path.clone(), "application/pdf".to_string(), Priority::Normal, 0).is_ok());
    }
    assert_eq!(queue.depth(), 2);
    let second = run_pass(&mut engine, vec![tagged("a.pdf", "\"3\"")]);
    assert_eq!(
        second,
        vec![(ChangeKind::Modified, "a.pdf".to_string()), (ChangeKind::Deleted, "b.png".to_string())]
    );
    let state = engine.state();
    assert_eq!(state.len(), 1);
    assert_eq!(state[0].path, "a.pdf");
    assert!(matches!(&state[0].fingerprint, Fingerprint::Tag(t) if t == "\"3\""));
}

#[test]
fn resync_without_changes_emits_nothing() {
    let listing = || vec![tagged("x", "1"), tagged("y", "2")];
    let mut engine = SyncEngine::new(7, Vec::new());
    assert_eq!(run_pass(&mut engine, listing()).len(), 2);
    assert!(run_pass(&mut engine, listing()).is_empty());
    assert_eq!(engine.phase(), PassPhase::Idle);
}

#[test]
fn unreliable_entry_is_modified_every_pass() {
    let mut e = tagged("x", "1");
    e.reliable = false;
    let mut engine = SyncEngine::new(7, vec![tagged("x", "1")]);
    let events = run_pass(&mut engine, vec![e]);
    assert_eq!(events, vec![(ChangeKind::Modified, "x".to_string())]);
}

#[test]
fn interrupted_commit_replays_change_set() {
    let mut engine = SyncEngine::new(3, vec![tagged("old", "1")]);
    assert!(engine.request_pass());
    let listing = vec![tagged("new", "1")];
    let first: Vec<(ChangeKind, String)> =
        engine.discovery_succeeded(listing.clone()).into_iter().map(|e| (e.kind, e.path)).collect();
    engine.finish_commit(PassOutcome::EmissionInterrupted);
    assert_eq!(engine.phase(), PassPhase::Failed);
    assert_eq!(engine.state().len(), 1);
    let again = run_pass(&mut engine, listing);
    assert_eq!(first, again);
    assert_eq!(
        again,
        vec![(ChangeKind::New, "new".to_string()), (ChangeKind::Deleted, "old".to_string())]
    );
}

#[test]
fn trigger_during_pass_is_coalesced() {
    let mut engine = SyncEngine::new(3, Vec::new());
    assert!(engine.request_pass());
    assert!(!engine.request_pass());
    engine.discovery_failed();
    assert_eq!(engine.phase(), PassPhase::Failed);
    assert!(engine.take_rerun());
    assert!(!engine.take_rerun());
}

#[test]
fn duplicate_active_job_is_refused() {
    let mut q = OcrQueue::new(10, 1, 3, 2, 60);
    let id = q.enqueue(1, "a.pdf".to_string(), "application/pdf".to_string(), Priority::Normal, 0).unwrap();
    assert_eq!(
        q.enqueue(1, "a.pdf".to_string(), "application/pdf".to_string(), Priority::High, 1),
        Err(QueueError::DuplicateJob)
    );
    assert_eq!(q.depth(), 1);
    assert!(q.enqueue(2, "a.pdf".to_string(), "application/pdf".to_string(), Priority::Normal, 1).is_ok());
    assert_eq!(q.dequeue(), Some(id));
    q.complete(id).unwrap();
    assert!(q.enqueue(1, "a.pdf".to_string(), "application/pdf".to_string(), Priority::Normal, 2).is_ok());
}

#[test]
fn queue_full_bound_is_never_exceeded() {
    let mut q = OcrQueue::new(2, 1, 3, 2, 60);
    let mut accepted = 0;
    let mut full = 0;
    for i in 0..4u64 {
        let r = q.enqueue(1, format!("f{}.png", i), "image/png".to_string(), Priority::Normal, i);
        if i == 0 {
            assert_eq!(q.dequeue(), Some(0));
        }
        match r {
            Ok(_) => accepted += 1,
            Err(QueueError::QueueFull) => full += 1,
            Err(e) => panic!("unexpected {:?}", e),
        }
    }
    assert_eq!(accepted, 2);
    assert_eq!(full, 2);
}

#[test]
fn transient_failures_stop_after_ceiling() {
    let max_retries = 2;
    let mut q = OcrQueue::new(10, 1, max_retries, 2, 60);
    let id = q.enqueue(1, "a.png".to_string(), "image/png".to_string(), Priority::Normal, 0).unwrap();
    let mut now = 0;
    let mut attempts = 0;
    loop {
        q.reap_due(now);
        match q.dequeue() {
            Some(got) => assert_eq!(got, id),
            None => break,
        }
        attempts += 1;
        let st = q.fail(id, ExtractError::Timeout, now, 20).unwrap();
        if st == JobState::Failed {
            break;
        }
        assert_eq!(st, JobState::Retrying);
        now = q.job(id).unwrap().retry_at.unwrap();
    }
    assert_eq!(attempts, max_retries + 1);
    let job = q.job(id).unwrap();
    assert_eq!(job.state, JobState::Failed);
    assert_eq!(job.attempts, max_retries + 1);
    assert_eq!(job.last_error, Some(ExtractError::Timeout));
    q.reap_due(u64::MAX);
    assert_eq!(q.dequeue(), None);
}

#[test]
fn permanent_failure_fails_at_once() {
    let mut q = OcrQueue::new(10, 1, 5, 2, 60);
    let id = q.enqueue(1, "bad.pdf".to_string(), "application/pdf".to_string(), Priority::Low, 0).unwrap();
    assert_eq!(q.dequeue(), Some(id));
    assert_eq!(q.fail(id, ExtractError::Corrupt, 0, 20), Ok(JobState::Failed));
    assert_eq!(q.job(id).unwrap().attempts, 1);
    assert_eq!(q.fail(id, ExtractError::Corrupt, 0, 20), Err(QueueError::InvalidJob));
    assert_eq!(q.complete(99), Err(QueueError::InvalidJob));
}

#[test]
fn retry_waits_until_due() {
    let mut q = OcrQueue::new(10, 1, 5, 2, 60);
    let id = q.enqueue(1, "a.png".to_string(), "image/png".to_string(), Priority::Normal, 0).unwrap();
    q.dequeue();
    assert_eq!(q.fail(id, ExtractError::EngineUnavailable, 100, 20), Ok(JobState::Retrying));
    assert_eq!(q.job(id).unwrap().retry_at, Some(102));
    assert_eq!(q.reap_due(101), 0);
    assert_eq!(q.dequeue(), None);
    assert_eq!(q.reap_due(102), 1);
    assert_eq!(q.job(id).unwrap().state, JobState::Pending);
    assert_eq!(q.dequeue(), Some(id));
}

#[test]
fn dequeue_by_priority_then_arrival() {
    let mut q = OcrQueue::new(10, 3, 3, 2, 60);
    let low = q.enqueue(1, "l".to_string(), "image/png".to_string(), Priority::Low, 0).unwrap();
    let n1 = q.enqueue(1, "n1".to_string(), "image/png".to_string(), Priority::Normal, 0).unwrap();
    let n2 = q.enqueue(1, "n2".to_string(), "image/png".to_string(), Priority::Normal, 0).unwrap();
    let high = q.enqueue(1, "h".to_string(), "image/png".to_string(), Priority::High, 0).unwrap();
    assert_eq!(q.dequeue(), Some(high));
    assert_eq!(q.dequeue(), Some(n1));
    assert_eq!(q.dequeue(), Some(n2));
    assert_eq!(q.dequeue(), None);
    q.complete(n1).unwrap();
    assert_eq!(q.dequeue(), Some(low));
}

#[test]
fn backoff_doubles_up_to_cap_with_jitter() {
    assert_eq!(retry_delay(2, 60, 1, 20), 2);
    assert_eq!(retry_delay(2, 60, 3, 20), 8);
    assert_eq!(retry_delay(2, 60, 3, 0), 6);
    assert_eq!(retry_delay(2, 60, 3, 40), 9);
    assert_eq!(retry_delay(2, 60, 10, 20), 60);
    assert_eq!(retry_delay(2, 60, 10, 40), 72);
}

#[test]
fn throttler_grants_queues_then_refuses() {
    let mut t = Throttler::new(Scope::OcrWorker, 1, 1, 0, 0);
    assert_eq!(t.acquire(), Ok(Admit::Granted));
    assert_eq!(t.acquire(), Ok(Admit::Queued));
    assert_eq!(t.acquire(), Err(ThrottleError::Throttled));
    assert!(t.release());
    assert_eq!(t.active(), 1);
    assert!(!t.release());
    assert_eq!(t.active(), 0);
    assert_eq!(t.scope(), Scope::OcrWorker);
}

#[test]
fn throttler_rate_ceiling() {
    let mut t = Throttler::new(Scope::Source(4), 5, 0, 1, 10);
    assert_eq!(t.acquire(), Ok(Admit::Granted));
    assert_eq!(t.acquire(), Ok(Admit::Queued));
    t.cancel_wait();
    assert!(!t.release());
    t.refill(11);
    assert_eq!(t.acquire(), Ok(Admit::Granted));
}

#[test]
fn scheduler_runs_coalesces_and_stops() {
    let mut s = SourceScheduler::new();
    s.start(5, 300, 1000);
    assert_eq!(s.take_due(1000), vec![5]);
    assert!(s.take_due(1000).is_empty());
    assert_eq!(s.trigger_now(5, 1010), TriggerOutcome::Coalesced);
    assert!(s.pass_finished(5, 1020));
    assert_eq!(s.slot(5).unwrap().next_due, Some(1020));
    assert_eq!(s.take_due(1020), vec![5]);
    assert!(s.pass_finished(5, 1030));
    assert_eq!(s.slot(5).unwrap().next_due, Some(1330));
    assert!(s.take_due(1329).is_empty());
    assert!(s.stop(5));
    assert!(s.take_due(5000).is_empty());
    assert_eq!(s.trigger_now(9, 0), TriggerOutcome::UnknownSource);
    assert!(s.remove(5));
    assert!(s.slot(5).is_none());
}

#[test]
fn admin_rules() {
    let mut user = admin(1);
    assert!(require_admin(&user).is_ok());
    assert!(check_delete_allowed(&user, 2).is_ok());
    assert!(matches!(check_delete_allowed(&user, 1), Err(UserError::DeleteRestricted(1, _))));
    user.user.role = UserRole::User;
    assert!(matches!(require_admin(&user), Err(UserError::PermissionDenied(m)) if m == "Admin access required"));
    assert!(matches!(check_delete_allowed(&user, 1), Err(UserError::PermissionDenied(m)) if m == "Admin access required"));
}

#[test]
fn store_errors_are_classified() {
    let m = "violates unique constraint on username".to_string();
    assert!(matches!(store_error(StoreOp::Create, 1, m), UserError::DuplicateUsername(_)));
    let m = "email must be unique".to_string();
    assert!(matches!(store_error(StoreOp::Update, 1, m), UserError::DuplicateEmail(_)));
    assert!(matches!(store_error(StoreOp::Delete, 4, "user not found".to_string()), UserError::NotFound(4)));
    assert!(matches!(store_error(StoreOp::Create, 4, "user not found".to_string()), UserError::Internal(StoreOp::Create, _)));
}

#[test]
fn decimal_and_http_dates() {
    assert_eq!(parse_decimal("1234"), Some(1234));
    assert_eq!(parse_decimal(""), None);
    assert_eq!(parse_decimal("12a"), None);
    assert_eq!(parse_decimal("18446744073709551615"), Some(u64::MAX));
    assert_eq!(parse_decimal("18446744073709551616"), None);
    assert_eq!(parse_http_date("Sun, 06 Nov 1994 08:49:37 GMT"), Some(784111777));
    assert_eq!(parse_http_date("Thu, 01 Jan 1970 00:00:00 GMT"), Some(0));
    assert_eq!(parse_http_date("Thu, 29 Feb 2024 12:00:00 GMT"), Some(1709208000));
    assert_eq!(parse_http_date("Wed, 29 Feb 2023 12:00:00 GMT"), None);
    assert_eq!(parse_http_date("yesterday"), None);
}

#[test]
fn missing_tag_uses_size_and_time() {
    let raw = RawResponse {
        href: "/dav/a.pdf".to_string(),
        content_length: Some("42".to_string()),
        last_modified: Some("Sun, 06 Nov 1994 08:49:37 GMT".to_string()),
        etag: None,
        is_collection: false,
    };
    let e = entry_from_response(&raw, "/dav/").unwrap();
    assert_eq!(e.size, 42);
    assert!(e.reliable);
    assert!(matches!(e.fingerprint, Fingerprint::SizeTime(42, 784111777)));
}

#[test]
fn listing_tolerates_missing_and_bad_properties() {
    let raws = vec![
        RawResponse { href: "/dav".to_string(), content_length: None, last_modified: None, etag: None, is_collection: true },
        RawResponse {
            href: "/dav/b.png".to_string(),
            content_length: None,
            last_modified: Some("garbage".to_string()),
            etag: Some("\"7\"".to_string()),
            is_collection: false,
        },
        RawResponse { href: "/dav/sub/".to_string(), content_length: Some("x".to_string()), last_modified: None, etag: None, is_collection: true },
    ];
    let entries = entries_from_responses(&raws, "/dav/");
    assert_eq!(entries.len(), 2);
    assert_eq!(entries[0].path, "/dav/b.png");
    assert!(!entries[0].reliable);
    assert_eq!(entries[0].last_modified, 0);
    assert!(matches!(&entries[0].fingerprint, Fingerprint::Tag(t) if t == "\"7\""));
    assert_eq!(entries[1].size, 0);
    assert!(entries[1].is_directory);
}

#[test]
fn full_queue_interrupts_commit_and_changes_replay() {
    let mut engine = SyncEngine::new(1, Vec::new());
    let mut q = OcrQueue::new(1, 1, 3, 2, 60);
    let listing = vec![tagged("a.pdf", "1"), tagged("b.png", "2")];
    let mimes = vec!["application/pdf".to_string(), "image/png".to_string()];

    assert!(engine.request_pass());
    let events = engine.discovery_succeeded(listing.clone());
    assert_eq!(enqueue_changes(&mut q, 1, &events, &mimes, Priority::Normal, 0), Err(QueueError::QueueFull));
    engine.finish_commit(PassOutcome::EmissionInterrupted);
    assert!(engine.state().is_empty());

    let id = q.dequeue().unwrap();
    q.complete(id).unwrap();

    assert!(engine.request_pass());
    let replay = engine.discovery_succeeded(listing);
    assert_eq!(replay.len(), 2);
    let mut big = OcrQueue::new(10, 1, 3, 2, 60);
    assert_eq!(enqueue_changes(&mut big, 1, &replay, &mimes, Priority::Normal, 0), Ok(2));
    assert_eq!(enqueue_changes(&mut big, 1, &replay, &mimes, Priority::Normal, 0), Ok(0));
    engine.finish_commit(PassOutcome::Committed);
    assert_eq!(engine.state().len(), 2);
}

#[test]
fn registry_keeps_one_gate_per_scope() {
    let mut reg = ThrottleRegistry::new(1, 1, 0);
    assert_eq!(reg.acquire(Scope::Source(1), 0), Ok(Admit::Granted));
    assert_eq!(reg.acquire(Scope::Source(2), 0), Ok(Admit::Granted));
    assert_eq!(reg.acquire(Scope::Source(1), 0), Ok(Admit::Queued));
    assert_eq!(reg.acquire(Scope::Source(1), 0), Err(ThrottleError::Throttled));
    assert_eq!(reg.acquire(Scope::OcrWorker, 0), Ok(Admit::Granted));
    assert_eq!(reg.release(Scope::Source(1)), Some(true));
    assert_eq!(reg.release(Scope::Source(1)), Some(false));
    assert_eq!(reg.release(Scope::Source(1)), None);
    assert_eq!(reg.release(Scope::Source(9)), None);
}

#[test]
fn released_slot_waits_for_a_token() {
    let mut t = Throttler::new(Scope::Source(2), 1, 0, 1, 0);
    assert_eq!(t.acquire(), Ok(Admit::Granted));
    assert_eq!(t.acquire(), Ok(Admit::Queued));
    assert!(!t.release());
    assert_eq!(t.waiting(), 1);
    assert_eq!(t.active(), 0);
}

#[test]
fn enqueue_changes_succeeds_with_room() {
    let events = vec![
        readur::sync::ChangeEvent { kind: ChangeKind::New, path: "a".to_string() },
        readur::sync::ChangeEvent { kind: ChangeKind::Deleted, path: "b".to_string() },
        readur::sync::ChangeEvent { kind: ChangeKind::Modified, path: "c".to_string() },
    ];
    let mimes = vec!["image/png".to_string(); 3];
    let mut q = OcrQueue::new(3, 1, 3, 2, 60);
    assert_eq!(enqueue_changes(&mut q, 9, &events, &mimes, Priority::High, 0), Ok(2));
    assert_eq!(q.depth(), 2);
}

#[test]
fn repeated_path_counts_by_its_last_entry() {
    let listing = || vec![tagged("x", "1"), tagged("y", "5"), tagged("x", "2")];
    let mut engine = SyncEngine::new(7, Vec::new());
    assert_eq!(
        run_pass(&mut engine, listing()),
        vec![(ChangeKind::New, "y".to_string()), (ChangeKind::New, "x".to_string())]
    );
    assert_eq!(engine.state().len(), 2);
    assert!(matches!(&engine.state()[1].fingerprint, Fingerprint::Tag(t) if t == "2"));
    assert!(run_pass(&mut engine, listing()).is_empty());
}
