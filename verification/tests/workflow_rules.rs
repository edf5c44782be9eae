use media_archiver::commands::{parse_join_command, replies_to_owner};
use media_archiver::domain::{
    ActiveDownloadSnapshot, AppLogLevel, AppSettings, AttachmentDiscovery, ConnectionState,
    DownloadJobRecord, DownloadJobState, FailedJobRetentionUnit, MediaCategory, RoomCheckpoint,
    RoomHistoryMode, TimeWindowUnit,
};
use media_archiver::error::ArchiveError;
use media_archiver::events::{
    attachment_discovery, event_timestamp, fallback_event_id, owner_reply, route_events,
    EventAction, HandledEvents, MediaMessage, MessageKind, ObservedEvent,
};
use media_archiver::history::{
    apply_batch, backfill_detail, history_task_status, new_checkpoint, plan_history_task,
    should_stop_initial_backfill, space_tracking_detail, summarize_events, EventStamp, HistoryTask,
    TimelineSource,
};
use media_archiver::media::StoredMediaSource;
use media_archiver::pipeline::{job_display_name, job_step, JobAction, JobEvent, JobPhase};
use media_archiver::protocol::{
    plan_command, response_event, settings_change, Command, CommandOutcome, ServerEvent,
    ServiceAction, SettingsChange,
};
use media_archiver::runtime::{
    idle_worker_snapshot, record_download_progress, set_active_download, stale_room_ids,
    worker_tasks_to_start, RoomTasks,
};
use media_archiver::settings::{
    clamp_download_worker_count, failed_job_cutoff_date, failed_retention_unit_key,
    history_cutoff, parse_failed_retention_unit, parse_time_window_unit, time_window_unit_key,
    DAY_MS,
};
use media_archiver::store::{ActivityLog, CheckpointStore, SettingsStore, LOG_RETENTION_MS};

const NOW: i64 = 1_700_000_000_000;

fn settings() -> AppSettings {
    AppSettings {
        homeserver_url: "https://example.org".to_owned(),
        username: "bot".to_owned(),
        owner_user_id: "@owner:example.org".to_owned(),
        destination_root_path: "/archive".to_owned(),
        message_limit: 10,
        time_window_value: 2,
        time_window_unit: TimeWindowUnit::Day,
        retry_cooldown_minutes: 5,
        retry_limit: 3,
        download_worker_count: 2,
        failed_job_retention_value: 3,
        failed_job_retention_unit: FailedJobRetentionUnit::Hour,
        desired_power_state: true,
    }
}

fn stamp(event_id: &str, timestamp: i64) -> EventStamp {
    EventStamp { event_id: event_id.to_owned(), timestamp }
}

fn download(worker_id: i32, job_id: i64) -> ActiveDownloadSnapshot {
    ActiveDownloadSnapshot {
        worker_id,
        job_id,
        room_id: "!r:x".to_owned(),
        filename: format!("file{job_id}"),
        received_bytes: 0,
        total_bytes: None,
    }
}

#[test]
fn storage_keys_round_trip() {
    for unit in [TimeWindowUnit::Disabled, TimeWindowUnit::Day, TimeWindowUnit::Week, TimeWindowUnit::Month] {
        assert_eq!(parse_time_window_unit(time_window_unit_key(unit)), unit);
    }
    for unit in [
        FailedJobRetentionUnit::Disabled,
        FailedJobRetentionUnit::Minute,
        FailedJobRetentionUnit::Hour,
        FailedJobRetentionUnit::Day,
    ] {
        assert_eq!(parse_failed_retention_unit(failed_retention_unit_key(unit)), unit);
    }
    assert_eq!(time_window_unit_key(TimeWindowUnit::Disabled), "none");
    assert_eq!(parse_time_window_unit("fortnight"), TimeWindowUnit::Disabled);
    assert_eq!(parse_failed_retention_unit("week"), FailedJobRetentionUnit::Disabled);
}

#[test]
fn worker_count_is_clamped() {
    assert_eq!(clamp_download_worker_count(0), 1);
    assert_eq!(clamp_download_worker_count(-5), 1);
    assert_eq!(clamp_download_worker_count(4), 4);
    assert_eq!(clamp_download_worker_count(99), 6);
}

#[test]
fn cutoffs_follow_the_configured_windows() {
    let s = settings();
    assert_eq!(history_cutoff(&s, NOW), Some(NOW - 2 * DAY_MS));
    assert_eq!(failed_job_cutoff_date(&s, NOW), Some(NOW - 3 * 3_600_000));
    let weeks = AppSettings { time_window_unit: TimeWindowUnit::Week, ..s.clone() };
    assert_eq!(history_cutoff(&weeks, NOW), Some(NOW - 14 * DAY_MS));
    let months = AppSettings { time_window_unit: TimeWindowUnit::Month, ..s.clone() };
    assert_eq!(history_cutoff(&months, NOW), Some(NOW - 60 * DAY_MS));
    let off = AppSettings { time_window_value: 0, failed_job_retention_value: 0, ..s.clone() };
    assert_eq!(history_cutoff(&off, NOW), None);
    assert_eq!(failed_job_cutoff_date(&off, NOW), None);
    let minutes = AppSettings { failed_job_retention_unit: FailedJobRetentionUnit::Minute, ..s };
    assert_eq!(failed_job_cutoff_date(&minutes, NOW), Some(NOW - 3 * 60_000));
}

#[test]
fn initial_backfill_stops_at_limit_or_window() {
    let s = settings();
    let mut checkpoint = new_checkpoint("!r:x");
    assert_eq!(should_stop_initial_backfill(&checkpoint, &s, NOW).unwrap(), false);
    checkpoint.historical_message_count = 10;
    assert_eq!(should_stop_initial_backfill(&checkpoint, &s, NOW).unwrap(), true);
    checkpoint.historical_message_count = 3;
    checkpoint.oldest_backfilled_timestamp = Some(NOW - 2 * DAY_MS);
    assert_eq!(should_stop_initial_backfill(&checkpoint, &s, NOW).unwrap(), true);
    checkpoint.oldest_backfilled_timestamp = Some(NOW - DAY_MS);
    assert_eq!(should_stop_initial_backfill(&checkpoint, &s, NOW).unwrap(), false);
    assert_eq!(backfill_detail(&checkpoint, &s), "Scanning 3 / 10 messages");
    let unlimited = AppSettings { message_limit: 0, ..s };
    assert_eq!(backfill_detail(&checkpoint, &unlimited), "Scanning 3 messages");
    assert_eq!(space_tracking_detail(1), "Tracking 1 space room");
    assert_eq!(space_tracking_detail(0), "Tracking 0 space rooms");
    assert_eq!(space_tracking_detail(12), "Tracking 12 space rooms");
}

#[test]
fn history_tasks_follow_room_kind_and_progress() {
    let mut checkpoint = new_checkpoint("!r:x");
    assert_eq!(plan_history_task(&checkpoint, true), HistoryTask::SpaceRefresh);
    assert_eq!(plan_history_task(&checkpoint, false), HistoryTask::InitialBackfill);
    checkpoint.initial_backfill_complete = true;
    assert_eq!(plan_history_task(&checkpoint, false), HistoryTask::ReconnectCatchUp);
    let (mode, detail) = history_task_status(HistoryTask::ReconnectCatchUp);
    assert_eq!(mode, RoomHistoryMode::ReconnectCatchUp);
    assert_eq!(detail, "Recovering missed messages");
}

#[test]
fn batches_move_checkpoints_forward_and_backward() {
    let events = vec![stamp("$b", 200), stamp("$a", 100), stamp("$c", 300), stamp("$a2", 100)];
    let summary = summarize_events(&events, TimelineSource::InitialBackfill, None);
    assert_eq!(summary.processed, 4);
    assert_eq!(summary.oldest.as_ref().unwrap().event_id, "$a");
    assert_eq!(summary.newest.as_ref().unwrap().event_id, "$c");
    let checkpoint = apply_batch(new_checkpoint("!r:x"), TimelineSource::InitialBackfill, &summary, NOW);
    assert_eq!(checkpoint.historical_message_count, 4);
    assert_eq!(checkpoint.oldest_backfilled_event_id.as_deref(), Some("$a"));
    assert_eq!(checkpoint.oldest_backfilled_timestamp, Some(100));
    assert_eq!(checkpoint.last_history_mode, RoomHistoryMode::InitialBackfill);
    assert_eq!(checkpoint.last_history_run_at, Some(NOW));

    let catch_up = summarize_events(&events, TimelineSource::ReconnectCatchUp, Some(200));
    assert_eq!(catch_up.processed, 1);
    let live = apply_batch(checkpoint.clone(), TimelineSource::ReconnectCatchUp, &catch_up, NOW);
    assert_eq!(live.last_processed_event_id.as_deref(), Some("$c"));
    assert_eq!(live.last_processed_timestamp, Some(300));
    let older = summarize_events(&vec![stamp("$old", 50)], TimelineSource::Live, None);
    let unchanged = apply_batch(live.clone(), TimelineSource::Live, &older, NOW);
    assert_eq!(unchanged.last_processed_timestamp, Some(300));
    let skipped = summarize_events(&vec![stamp("$x", 150)], TimelineSource::ReconnectCatchUp, Some(200));
    assert_eq!(skipped.processed, 0);
    assert!(skipped.oldest.is_none());
}

#[test]
fn owner_commands_name_the_room_to_join() {
    assert_eq!(parse_join_command("!matrixdl join #goofball:example.org").as_deref(), Some("#goofball:example.org"));
    assert_eq!(parse_join_command("  !matrixdl   JOIN  #a:x   b  ").as_deref(), Some("#a:x b"));
    assert_eq!(parse_join_command("!matrixdl leave #a:x"), None);
    assert_eq!(parse_join_command("!matrixdl join"), None);
    assert_eq!(parse_join_command("!matrixdljoin #a:x"), None);
    assert_eq!(parse_join_command("hello"), None);
    assert!(replies_to_owner(Some("@bot:x"), "@owner:x"));
    assert!(!replies_to_owner(Some("@owner:x"), "@owner:x"));
    assert!(replies_to_owner(None, "@owner:x"));
    assert_eq!(owner_reply("Joined", "#room:x"), "Joined #room:x");
}

#[test]
fn each_owner_command_event_is_handled_once() {
    let mut handled = HandledEvents::new();
    assert_eq!(handled.accept_owner_command("@owner:x", "$1", "@stranger:x", "!matrixdl join #a:x"), None);
    assert_eq!(
        handled.accept_owner_command("@owner:x", "$1", "@owner:x", "!matrixdl join #a:x").as_deref(),
        Some("#a:x")
    );
    assert_eq!(handled.accept_owner_command("@owner:x", "$1", "@owner:x", "!matrixdl join #a:x"), None);
    assert_eq!(handled.accept_owner_command("@owner:x", "$2", "@owner:x", "hello"), None);
}

fn discovery(event_id: &str) -> AttachmentDiscovery {
    AttachmentDiscovery {
        room_id: "!r:x".to_owned(),
        event_id: event_id.to_owned(),
        origin_server_timestamp: 1,
        mxc_url: "mxc://x/y".to_owned(),
        original_filename: None,
        mime_type: None,
        category: MediaCategory::Other,
    }
}

#[test]
fn batches_route_attachments_and_commands() {
    let events = vec![
        ObservedEvent { stamp: stamp("$1", 100), sender: "@a:x".to_owned(), command_body: Some("hi".to_owned()), discovery: Some(discovery("$1")) },
        ObservedEvent { stamp: stamp("$2", 300), sender: "@b:x".to_owned(), command_body: None, discovery: Some(discovery("$2")) },
    ];
    let live = route_events(&events, TimelineSource::Live, None, false);
    assert_eq!(live.len(), 3);
    assert!(matches!(&live[0], EventAction::Enqueue(d) if d.event_id == "$1"));
    assert!(matches!(&live[1], EventAction::Command { event_id, body, .. } if event_id == "$1" && body == "hi"));
    assert!(matches!(&live[2], EventAction::Enqueue(d) if d.event_id == "$2"));
    let backfill = route_events(&events, TimelineSource::InitialBackfill, None, false);
    assert_eq!(backfill.len(), 2);
    let space = route_events(&events, TimelineSource::Live, None, true);
    assert_eq!(space.len(), 1);
    let catch_up = route_events(&events, TimelineSource::ReconnectCatchUp, Some(100), false);
    assert_eq!(catch_up.len(), 1);
    assert!(matches!(&catch_up[0], EventAction::Enqueue(d) if d.event_id == "$2"));
}

fn message(kind: MessageKind, filename: Option<&str>) -> MediaMessage {
    MediaMessage {
        kind,
        body: "body.bin".to_owned(),
        filename: filename.map(|f| f.to_owned()),
        mime_type: Some("image/png".to_owned()),
        source: StoredMediaSource::Encrypted("{}".to_owned()),
    }
}

#[test]
fn messages_announce_attachments_by_kind() {
    let image = attachment_discovery("!r:x", "$e", 5, &message(MessageKind::Image, Some("pic.png"))).unwrap();
    assert_eq!(image.category, MediaCategory::Images);
    assert_eq!(image.original_filename.as_deref(), Some("pic.png"));
    assert_eq!(image.mxc_url, "encrypted:{}");
    assert_eq!(image.origin_server_timestamp, 5);
    let video = attachment_discovery("!r:x", "$e", 5, &message(MessageKind::Video, None)).unwrap();
    assert_eq!(video.category, MediaCategory::Videos);
    assert_eq!(video.original_filename.as_deref(), Some("body.bin"));
    let sticker = attachment_discovery("!r:x", "$e", 5, &message(MessageKind::Sticker, Some("ignored"))).unwrap();
    assert_eq!(sticker.category, MediaCategory::Images);
    assert_eq!(sticker.original_filename.as_deref(), Some("body.bin"));
    let file = attachment_discovery("!r:x", "$e", 5, &message(MessageKind::File, None)).unwrap();
    assert_eq!(file.category, MediaCategory::Images);
    let audio = attachment_discovery("!r:x", "$e", 5, &message(MessageKind::Audio, None)).unwrap();
    assert_eq!(audio.category, MediaCategory::Audio);
    assert!(attachment_discovery("!r:x", "$e", 5, &message(MessageKind::Other, None)).is_none());
}

#[test]
fn event_identity_and_time() {
    assert_eq!(fallback_event_id(1700, "@a:b"), "remote-1700-@a:b");
    assert_eq!(event_timestamp(1_700_000_000_000).unwrap(), 1_700_000_000_000);
    match event_timestamp(u64::MAX) {
        Err(ArchiveError::InvalidTimestamp { value }) => assert_eq!(value, "18446744073709551615"),
        other => panic!("unexpected {:?}", other),
    }
    assert!(event_timestamp(9_000_000_000_000_000).is_err());
    assert_eq!(
        ArchiveError::InvalidTimestamp { value: "x".to_owned() }.message(),
        "Invalid timestamp: x"
    );
}

fn job() -> DownloadJobRecord {
    DownloadJobRecord {
        id: 1,
        room_id: "!r:x".to_owned(),
        event_id: "$e".to_owned(),
        mxc_url: "mxc://x/y".to_owned(),
        original_filename: None,
        mime_type: None,
        category: MediaCategory::Images,
        state: DownloadJobState::Downloading,
        retry_count: 0,
        next_eligible_at: None,
        last_failure_at: None,
        last_error: None,
        sha256: None,
        saved_relative_path: None,
        created_at: 0,
        updated_at: 0,
    }
}

#[test]
fn a_job_runs_from_download_to_completion() {
    assert_eq!(job_display_name(&job()), "$e");
    let root = "/archive";
    let (phase, action) = job_step(&JobPhase::Downloading, &JobEvent::Downloaded, root, Some("png"));
    assert!(matches!(action, JobAction::Validate));
    let (phase, action) = job_step(&phase, &JobEvent::Validated, root, Some("png"));
    assert!(matches!(action, JobAction::Hash));
    let (phase, action) = job_step(&phase, &JobEvent::Hashed { sha256: "abc".to_owned() }, root, Some("png"));
    assert!(matches!(&action, JobAction::FindDuplicate { sha256 } if sha256 == "abc"));
    let (phase, action) = job_step(&phase, &JobEvent::NoDuplicate, root, Some("png"));
    assert!(matches!(action, JobAction::ResolveFolder));
    let (phase, action) = job_step(&phase, &JobEvent::FolderResolved { folder: "/archive/Room/Images".to_owned() }, root, Some("png"));
    assert!(matches!(&action, JobAction::CheckDestination { final_path } if final_path == "/archive/Room/Images/abc.png"));
    let (phase, action) = job_step(&phase, &JobEvent::DestinationChecked { exists: false }, root, Some("png"));
    assert!(matches!(&action, JobAction::MoveInto { final_path } if final_path == "/archive/Room/Images/abc.png"));
    let (phase, action) = job_step(&phase, &JobEvent::Moved, root, Some("png"));
    assert!(matches!(action, JobAction::ReadOrigin));
    let (phase, action) = job_step(&phase, &JobEvent::OriginRead { origin_timestamp: Some(42) }, root, Some("png"));
    assert!(matches!(phase, JobPhase::Finished));
    match action {
        JobAction::Complete { sha256, final_path, relative_path, origin_timestamp } => {
            assert_eq!(sha256, "abc");
            assert_eq!(final_path, "/archive/Room/Images/abc.png");
            assert_eq!(relative_path, "Room/Images/abc.png");
            assert_eq!(origin_timestamp, Some(42));
        }
        other => panic!("unexpected {:?}", other),
    }
}

#[test]
fn a_job_stops_on_failures_and_duplicates() {
    let (phase, action) = job_step(&JobPhase::Downloading, &JobEvent::DownloadFailed { description: "boom".to_owned() }, "/a", None);
    assert!(matches!(phase, JobPhase::Finished));
    assert!(matches!(&action, JobAction::RecordFailure { description } if description == "boom"));
    let (phase, action) = job_step(&JobPhase::Validating, &JobEvent::StepFailed { description: "bad".to_owned() }, "/a", None);
    assert!(matches!(phase, JobPhase::Finished));
    assert!(matches!(&action, JobAction::Abandon { description } if description == "bad"));
    let (_, action) = job_step(
        &JobPhase::CheckingDuplicate { sha256: "h".to_owned() },
        &JobEvent::DuplicateFound { saved_relative_path: Some("R/x".to_owned()) },
        "/a",
        None,
    );
    assert!(matches!(&action, JobAction::MarkDuplicate { sha256, saved_relative_path: Some(p) } if sha256 == "h" && p == "R/x"));
    let (_, action) = job_step(
        &JobPhase::CheckingDestination { sha256: "h".to_owned(), final_path: "/a/R/h".to_owned(), relative_path: "R/h".to_owned() },
        &JobEvent::DestinationChecked { exists: true },
        "/a",
        None,
    );
    assert!(matches!(&action, JobAction::MarkDuplicate { saved_relative_path: Some(p), .. } if p == "R/h"));
    let (phase, action) = job_step(&JobPhase::Hashing, &JobEvent::Moved, "/a", None);
    assert!(matches!(phase, JobPhase::Hashing));
    assert!(matches!(action, JobAction::Ignore));
    let (phase, action) = job_step(&JobPhase::Finished, &JobEvent::StepFailed { description: "x".to_owned() }, "/a", None);
    assert!(matches!(phase, JobPhase::Finished));
    assert!(matches!(action, JobAction::Ignore));
}

#[test]
fn commands_need_a_client_when_they_talk_to_matrix() {
    assert!(matches!(plan_command(Command::JoinRoom { room_id_or_alias: "#a:x".to_owned() }, false), Err(ArchiveError::NotConnected)));
    assert_eq!(ArchiveError::NotConnected.message(), "Matrix client is not connected.");
    assert!(matches!(plan_command(Command::Stop, false), Ok((ServiceAction::Stop, CommandOutcome::Continue))));
    assert!(matches!(plan_command(Command::Shutdown, false), Ok((ServiceAction::Stop, CommandOutcome::Shutdown))));
    assert!(matches!(plan_command(Command::RequestVerification, true), Ok((ServiceAction::RequestVerification, CommandOutcome::Continue))));
    match response_event(7, Some("bad".to_owned())) {
        ServerEvent::Response { id, ok, error } => {
            assert_eq!(id, 7);
            assert!(!ok);
            assert_eq!(error.as_deref(), Some("bad"));
        }
        other => panic!("unexpected {:?}", other),
    }
    assert!(matches!(response_event(8, None), ServerEvent::Response { ok: true, .. }));
}

#[test]
fn saving_settings_restarts_stops_or_refreshes() {
    let previous = settings();
    assert_eq!(settings_change(&previous, "pw", &previous, "pw"), SettingsChange::Refresh);
    assert_eq!(settings_change(&previous, "pw", &previous, "new"), SettingsChange::Restart);
    let other_owner = AppSettings { owner_user_id: "@else:x".to_owned(), ..previous.clone() };
    assert_eq!(settings_change(&previous, "pw", &other_owner, "pw"), SettingsChange::Restart);
    let off = AppSettings { desired_power_state: false, username: "changed".to_owned(), ..previous.clone() };
    assert_eq!(settings_change(&previous, "pw", &off, "pw"), SettingsChange::Stop);
}

#[test]
fn active_downloads_stay_in_worker_order() {
    let mut downloads = Vec::new();
    set_active_download(&mut downloads, 3, Some(download(3, 30)));
    set_active_download(&mut downloads, 1, Some(download(1, 10)));
    set_active_download(&mut downloads, 2, Some(download(2, 20)));
    set_active_download(&mut downloads, 1, Some(download(1, 11)));
    let workers: Vec<(i32, i64)> = downloads.iter().map(|d| (d.worker_id, d.job_id)).collect();
    assert_eq!(workers, vec![(1, 11), (2, 20), (3, 30)]);
    record_download_progress(&mut downloads, 2, 500, Some(1000));
    assert_eq!(downloads[1].received_bytes, 500);
    assert_eq!(downloads[1].total_bytes, Some(1000));
    assert_eq!(downloads[0].received_bytes, 0);
    set_active_download(&mut downloads, 2, None);
    let workers: Vec<i32> = downloads.iter().map(|d| d.worker_id).collect();
    assert_eq!(workers, vec![1, 3]);
}

#[test]
fn room_workers_start_missing_tasks_and_stop_for_left_rooms() {
    assert_eq!(worker_tasks_to_start(false, false, false), (true, true));
    assert_eq!(worker_tasks_to_start(true, false, false), (false, true));
    assert_eq!(worker_tasks_to_start(false, true, true), (false, false));
    let idle = idle_worker_snapshot("!r:x");
    assert_eq!(idle.history_detail, "Idle");
    assert_eq!(idle.history_mode, RoomHistoryMode::Idle);
    assert!(!idle.live_watcher_active);
    let stale = stale_room_ids(
        &vec!["!a:x".to_owned(), "!b:x".to_owned(), "!c:x".to_owned()],
        &vec!["!b:x".to_owned()],
    );
    assert_eq!(stale, vec!["!a:x".to_owned(), "!c:x".to_owned()]);
}

#[test]
fn room_tasks_are_started_once_per_room() {
    let mut tasks = RoomTasks::new();
    assert_eq!(tasks.state_of("!r:x"), (false, false));
    assert!(tasks.room_ids().is_empty());
    assert_eq!(tasks.ensure("!r:x", false), (true, true));
    assert_eq!(tasks.ensure("!r:x", false), (false, false));
    assert_eq!(tasks.state_of("!r:x"), (true, true));
    assert_eq!(tasks.ensure("!s:x", true), (false, true));
    assert_eq!(tasks.ensure("!s:x", true), (false, false));
    assert_eq!(tasks.state_of("!s:x"), (false, true));
    assert_eq!(tasks.state_of("!r:x"), (true, true));
    tasks.history_stopped("!r:x");
    assert_eq!(tasks.state_of("!r:x"), (true, false));
    assert_eq!(tasks.ensure("!r:x", false), (false, true));
    tasks.live_stopped("!r:x");
    assert_eq!(tasks.state_of("!r:x"), (false, true));
    assert_eq!(tasks.ensure("!r:x", false), (true, false));
    let mut ids = tasks.room_ids();
    ids.sort();
    assert_eq!(ids, vec!["!r:x".to_owned(), "!s:x".to_owned()]);
    assert!(tasks.remove("!s:x"));
    assert!(!tasks.remove("!s:x"));
    assert_eq!(tasks.state_of("!s:x"), (false, false));
    assert_eq!(tasks.room_ids(), vec!["!r:x".to_owned()]);
    tasks.history_stopped("!gone:x");
    assert_eq!(tasks.state_of("!gone:x"), (false, false));
}

#[test]
fn settings_store_hands_out_defaults_then_saved_values() {
    let mut store = SettingsStore::new();
    let defaults = store.load_settings("/home/me/Archive");
    assert_eq!(defaults.homeserver_url, "https://matrix.org");
    assert_eq!(defaults.destination_root_path, "/home/me/Archive");
    assert_eq!(defaults.message_limit, 5_000);
    assert_eq!(defaults.download_worker_count, 1);
    assert!(!defaults.desired_power_state);
    let wanted = AppSettings { download_worker_count: 42, ..settings() };
    store.save_settings(&wanted);
    let loaded = store.load_settings("/ignored");
    assert_eq!(loaded.download_worker_count, 6);
    assert_eq!(loaded.username, "bot");
    assert_eq!(loaded.time_window_unit, TimeWindowUnit::Day);
}

#[test]
fn checkpoints_are_created_saved_and_reset() {
    let mut store = CheckpointStore::new();
    let fresh = store.load_checkpoint("!r:x");
    assert_eq!(fresh.historical_message_count, 0);
    assert_eq!(fresh.last_history_mode, RoomHistoryMode::Idle);
    let progressed = RoomCheckpoint {
        historical_message_count: 7,
        initial_backfill_complete: true,
        last_processed_timestamp: Some(NOW),
        ..fresh
    };
    store.save_checkpoint(&progressed);
    let back = store.load_checkpoint("!r:x");
    assert_eq!(back.historical_message_count, 7);
    assert!(back.initial_backfill_complete);
    assert_eq!(back.last_processed_timestamp, Some(NOW));
    store.reset_all_history_scans();
    let reset = store.load_checkpoint("!r:x");
    assert_eq!(reset.historical_message_count, 0);
    assert!(!reset.initial_backfill_complete);
    assert_eq!(reset.last_processed_timestamp, None);
}

#[test]
fn activity_log_keeps_recent_lines() {
    let mut log = ActivityLog::new();
    log.insert_log(AppLogLevel::Info, "queue", "first", NOW).unwrap();
    log.insert_log(AppLogLevel::Warning, "queue", "second", NOW + 1).unwrap();
    let all = log.fetch_recent_logs(-1);
    assert_eq!(all.len(), 2);
    assert_eq!(all[0].message, "first");
    assert_eq!(all[1].id, all[0].id + 1);
    let last = log.fetch_recent_logs(1);
    assert_eq!(last.len(), 1);
    assert_eq!(last[0].message, "second");
    assert_eq!(log.fetch_recent_logs(0).len(), 0);
    log.insert_log(AppLogLevel::Error, "rooms", "later", NOW + LOG_RETENTION_MS + 1).unwrap();
    let remaining = log.fetch_recent_logs(10);
    assert_eq!(remaining.len(), 2);
    assert_eq!(remaining[0].message, "second");
    assert_eq!(remaining[1].message, "later");
    assert_eq!(remaining[1].level, AppLogLevel::Error);
}

#[test]
fn connection_states_are_distinct() {
    assert_ne!(ConnectionState::Running, ConnectionState::Error);
}

#[test]
fn active_downloads_come_out_in_worker_order_from_any_list() {
    let mut downloads = vec![download(3, 30), download(1, 10)];
    set_active_download(&mut downloads, 2, Some(download(2, 20)));
    let workers: Vec<i32> = downloads.iter().map(|d| d.worker_id).collect();
    assert_eq!(workers, vec![1, 2, 3]);
    let mut unsorted = vec![download(3, 30), download(1, 10), download(2, 20)];
    set_active_download(&mut unsorted, 3, None);
    let workers: Vec<i32> = unsorted.iter().map(|d| d.worker_id).collect();
    assert_eq!(workers, vec![1, 2]);
}
