use media_archiver::domain::{
    AppSettings, AttachmentDiscovery, DownloadJobState, FailedJobRetentionUnit, MediaCategory,
    TimeWindowUnit,
};
use media_archiver::queue::{decide_job_failure, FailureDecision, JobQueue};

const MINUTE: i64 = 60_000;
const NOW: i64 = 1_700_000_000_000;

fn sample_discovery(event_id: &str) -> AttachmentDiscovery {
    AttachmentDiscovery {
        room_id: "!room:example.org".to_owned(),
        event_id: event_id.to_owned(),
        origin_server_timestamp: NOW,
        mxc_url: format!("mxc://example.org/{event_id}"),
        original_filename: Some(format!("{event_id}.bin")),
        mime_type: Some("application/octet-stream".to_owned()),
        category: MediaCategory::Other,
    }
}

fn retry_settings(cooldown_minutes: i32, retry_limit: i32) -> AppSettings {
    AppSettings {
        homeserver_url: "https://matrix.org".to_owned(),
        username: String::new(),
        owner_user_id: String::new(),
        destination_root_path: String::new(),
        message_limit: 0,
        time_window_value: 0,
        time_window_unit: TimeWindowUnit::Disabled,
        retry_cooldown_minutes: cooldown_minutes,
        retry_limit,
        download_worker_count: 1,
        failed_job_retention_value: 0,
        failed_job_retention_unit: FailedJobRetentionUnit::Disabled,
        desired_power_state: false,
    }
}

#[test]
fn claim_next_eligible_job_skips_ineligible_undecryptable_entries() {
    let mut database = JobQueue::new();
    let now = NOW;

    database
        .enqueue_discovery(&sample_discovery("$blocked"), now - 10 * MINUTE)
        .expect("enqueue blocked job");
    database
        .enqueue_discovery(&sample_discovery("$ready"), now - 5 * MINUTE)
        .expect("enqueue ready job");

    let jobs = database.fetch_jobs(10, now);
    let blocked_job = jobs
        .iter()
        .find(|job| job.event_id == "$blocked")
        .expect("blocked job should exist");
    database.mark_job_undecryptable(blocked_job.id, now + 5 * MINUTE, "missing keys", now);

    let claimed = database
        .claim_next_eligible_job(now, now)
        .expect("expected an eligible job");

    assert_eq!(claimed.event_id, "$ready");
}

#[test]
fn fetch_jobs_keeps_ineligible_retries_behind_ready_queue_items() {
    let mut database = JobQueue::new();
    let now = NOW;

    database
        .enqueue_discovery(&sample_discovery("$first"), now - 12 * MINUTE)
        .expect("enqueue first job");
    database
        .enqueue_discovery(&sample_discovery("$blocked"), now - 11 * MINUTE)
        .expect("enqueue blocked job");
    database
        .enqueue_discovery(&sample_discovery("$third"), now - 10 * MINUTE)
        .expect("enqueue third job");

    let jobs = database.fetch_jobs(10, now);
    let blocked_job = jobs
        .iter()
        .find(|job| job.event_id == "$blocked")
        .expect("blocked job should exist");
    database.mark_job_undecryptable(blocked_job.id, now + 5 * MINUTE, "missing keys", now);

    let ordered_jobs = database.fetch_jobs(10, now);
    let ordered_event_ids: Vec<_> = ordered_jobs.iter().map(|job| job.event_id.as_str()).collect();

    assert_eq!(ordered_event_ids, vec!["$first", "$third", "$blocked"]);
    assert_eq!(ordered_jobs[2].state, DownloadJobState::UndecryptablePending);
    assert!(ordered_jobs[2].next_eligible_at.is_some());
    assert!(ordered_jobs[2].last_failure_at.is_some());
}

#[test]
fn a_discovery_is_queued_once() {
    let mut queue = JobQueue::new();
    assert_eq!(queue.enqueue_discovery(&sample_discovery("$a"), NOW).expect("first"), true);
    assert_eq!(queue.enqueue_discovery(&sample_discovery("$a"), NOW + 1).expect("second"), false);
    assert_eq!(queue.fetch_jobs(-1, NOW).len(), 1);
    assert_eq!(queue.fetch_waiting_job_count(), 1);
    assert_eq!(queue.discovery_origin_timestamp("!room:example.org", "$a"), Some(NOW));
    assert_eq!(queue.discovery_origin_timestamp("!room:example.org", "$b"), None);
}

#[test]
fn claimed_job_heads_the_list_and_leaves_the_waiting_count() {
    let mut queue = JobQueue::new();
    queue.enqueue_discovery(&sample_discovery("$late"), NOW - MINUTE).unwrap();
    queue.enqueue_discovery(&sample_discovery("$early"), NOW - 3 * MINUTE).unwrap();
    let head = queue.fetch_jobs(1, NOW);
    assert_eq!(head.len(), 1);
    assert_eq!(head[0].event_id, "$early");
    let claimed = queue.claim_next_eligible_job(NOW, NOW).expect("claim");
    assert_eq!(claimed.event_id, "$early");
    assert_eq!(claimed.state, DownloadJobState::Downloading);
    assert_eq!(queue.fetch_waiting_job_count(), 1);
    queue.reset_interrupted_jobs(NOW + 1);
    assert_eq!(queue.fetch_waiting_job_count(), 2);
    let listed = queue.fetch_jobs(10, NOW + 1);
    let interrupted = listed.iter().find(|job| job.event_id == "$early").expect("requeued");
    assert_eq!(interrupted.state, DownloadJobState::Queued);
    assert!(interrupted.last_error.is_some());
}

#[test]
fn failures_cool_down_then_fail_permanently() {
    let settings = retry_settings(0, 2);
    match decide_job_failure("network timed out", 0, &settings, NOW) {
        FailureDecision::CoolDown { retry_count, next_eligible_at, permanently_failed } => {
            assert_eq!(retry_count, 1);
            assert_eq!(next_eligible_at, NOW + MINUTE);
            assert!(!permanently_failed);
        }
        other => panic!("unexpected {:?}", other),
    }
    match decide_job_failure("network timed out", 1, &retry_settings(5, 2), NOW) {
        FailureDecision::CoolDown { retry_count, next_eligible_at, permanently_failed } => {
            assert_eq!(retry_count, 2);
            assert_eq!(next_eligible_at, NOW + 5 * MINUTE);
            assert!(permanently_failed);
        }
        other => panic!("unexpected {:?}", other),
    }
    match decide_job_failure("Could not DECRYPT the media", 7, &settings, NOW) {
        FailureDecision::Undecryptable { next_eligible_at } => {
            assert_eq!(next_eligible_at, NOW + MINUTE)
        }
        other => panic!("unexpected {:?}", other),
    }
    match decide_job_failure("UTD event", 0, &settings, NOW) {
        FailureDecision::Undecryptable { .. } => {}
        other => panic!("unexpected {:?}", other),
    }
}

#[test]
fn permanent_failures_are_retried_cleared_and_pruned() {
    let mut queue = JobQueue::new();
    queue.enqueue_discovery(&sample_discovery("$x"), NOW).unwrap();
    queue.enqueue_discovery(&sample_discovery("$y"), NOW).unwrap();
    let jobs = queue.fetch_jobs(10, NOW);
    let x = jobs.iter().find(|j| j.event_id == "$x").unwrap().id;
    let y = jobs.iter().find(|j| j.event_id == "$y").unwrap().id;
    queue.mark_job_cooling_down(x, 3, NOW + MINUTE, "boom", true, NOW);
    queue.mark_job_cooling_down(y, 3, NOW + MINUTE, "boom", true, NOW + 10 * MINUTE);
    assert_eq!(queue.fetch_waiting_job_count(), 0);
    assert_eq!(queue.prune_permanent_failed_jobs(NOW + MINUTE), 1);
    assert_eq!(queue.fetch_jobs(10, NOW).len(), 1);
    assert!(queue.retry_permanent_failed_job(y, NOW + 20 * MINUTE));
    assert!(!queue.retry_permanent_failed_job(y, NOW + 20 * MINUTE));
    let again = queue.fetch_jobs(10, NOW + 20 * MINUTE);
    assert_eq!(again[0].state, DownloadJobState::Queued);
    assert_eq!(again[0].retry_count, 0);
    queue.mark_job_cooling_down(y, 1, NOW, "boom", true, NOW);
    assert_eq!(queue.clear_all_permanent_failed_jobs(), 1);
    assert!(queue.fetch_jobs(10, NOW).is_empty());
}

#[test]
fn completed_jobs_are_found_by_hash() {
    let mut queue = JobQueue::new();
    queue.enqueue_discovery(&sample_discovery("$z"), NOW).unwrap();
    let id = queue.fetch_jobs(1, NOW)[0].id;
    queue.mark_job_completed(id, "abc", "Room/Other/abc.bin", NOW);
    let found = queue
        .find_completed_job("!room:example.org", MediaCategory::Other, "abc")
        .expect("completed job");
    assert_eq!(found.saved_relative_path.as_deref(), Some("Room/Other/abc.bin"));
    assert!(queue.find_completed_job("!room:example.org", MediaCategory::Images, "abc").is_none());
    assert!(queue.find_completed_job("!room:example.org", MediaCategory::Other, "abd").is_none());
    queue.clear_for_full_rescan();
    assert!(queue.find_completed_job("!room:example.org", MediaCategory::Other, "abc").is_none());
    assert_eq!(queue.enqueue_discovery(&sample_discovery("$z"), NOW).unwrap(), true);
}

#[test]
fn requeued_and_bulk_retried_jobs_wait_again() {
    let mut queue = JobQueue::new();
    queue.enqueue_discovery(&sample_discovery("$a"), NOW).unwrap();
    queue.enqueue_discovery(&sample_discovery("$b"), NOW).unwrap();
    let claimed = queue.claim_next_eligible_job(NOW, NOW).expect("claimed");
    queue.mark_job_queued(claimed.id, Some("interrupted".to_owned()), NOW + MINUTE);
    let job = queue.fetch_jobs(10, NOW + MINUTE).into_iter().find(|j| j.id == claimed.id).unwrap();
    assert_eq!(job.state, DownloadJobState::Queued);
    assert_eq!(job.last_error.as_deref(), Some("interrupted"));
    assert_eq!(job.updated_at, NOW + MINUTE);
    assert_eq!(job.next_eligible_at, None);

    let ids: Vec<i64> = queue.fetch_jobs(10, NOW).iter().map(|j| j.id).collect();
    for id in &ids {
        queue.mark_job_cooling_down(*id, 3, NOW, "boom", true, NOW);
    }
    assert_eq!(queue.retry_all_permanent_failed_jobs(NOW + 2 * MINUTE), 2);
    assert_eq!(queue.fetch_waiting_job_count(), 2);
    assert!(queue.fetch_jobs(10, NOW).iter().all(|j| j.retry_count == 0 && j.last_error.is_none()));
}

#[test]
fn one_permanent_failure_is_cleared() {
    let mut queue = JobQueue::new();
    queue.enqueue_discovery(&sample_discovery("$a"), NOW).unwrap();
    let id = queue.fetch_jobs(1, NOW)[0].id;
    assert!(!queue.clear_permanent_failed_job(id));
    queue.mark_job_cooling_down(id, 3, NOW, "boom", true, NOW);
    assert!(queue.clear_permanent_failed_job(id));
    assert!(queue.fetch_jobs(10, NOW).is_empty());
    assert!(!queue.clear_permanent_failed_job(id));
}
