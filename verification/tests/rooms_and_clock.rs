use media_archiver::clock::{
    parse_optional_timestamp, timestamp_text, CHRONO_MAX_MILLIS, CHRONO_MIN_MILLIS,
};
use media_archiver::domain::{
    ActivityLogEntry, AttachmentDiscovery, AppLogLevel, AppSettings, ConnectionState, FailedJobRetentionUnit,
    MediaCategory, RoomHistoryMode, RoomRecord, RoomWorkerSnapshot, SpaceAutoJoinRecord,
    TimeWindowUnit, VerificationEmoji, VerificationStatus,
};
use media_archiver::error::ArchiveError;
use media_archiver::events::{
    change_carries_items, command_log, join_command_outcome, observe_event, HandledEvents, MediaMessage, MessageKind,
    TimelineChangeKind,
};
use media_archiver::history::{
    catch_up_continues, finish_backfill_round, new_checkpoint, room_is_space, CATCH_UP_PAGES,
};
use media_archiver::identity::{handles_invites, invite_decision, InviteDecision};
use media_archiver::media::StoredMediaSource;
use media_archiver::pipeline::{completion_log, duplicate_log, failure_log};
use media_archiver::queue::{FailureDecision, JobQueue};
use media_archiver::rooms::{AliasSighting, RoomStore};
use media_archiver::runtime::{downloads_may_run, sort_worker_snapshots};
use media_archiver::spaces::SpaceLinkStore;
use media_archiver::store::{
    reset_all_history_scans_for_full_rescan, ActivityLog, CheckpointStore, SettingsStore,
};
use media_archiver::verification::{
    approve_check, decline_step, own_device_check, sas_start_check, verification_snapshot,
    DeclineStep,
};

const NOW: i64 = 1_700_000_000_000;

fn settings() -> AppSettings {
    AppSettings {
        homeserver_url: "https://example.org".to_owned(),
        username: "bot".to_owned(),
        owner_user_id: "@owner:example.org".to_owned(),
        destination_root_path: "/archive".to_owned(),
        message_limit: 10,
        time_window_value: 2,
        time_window_unit: TimeWindowUnit::Day,
        retry_cooldown_minutes: 5,
        retry_limit: 3,
        download_worker_count: 2,
        failed_job_retention_value: 3,
        failed_job_retention_unit: FailedJobRetentionUnit::Hour,
        desired_power_state: true,
    }
}

fn room(id: &str, name: Option<&str>, alias: Option<&str>, label: &str) -> RoomRecord {
    RoomRecord {
        room_id: id.to_owned(),
        current_display_name: name.map(str::to_owned),
        current_canonical_alias: alias.map(str::to_owned),
        active_folder_label: label.to_owned(),
        is_space: false,
        membership: "join".to_owned(),
        updated_at: NOW,
    }
}

#[test]
fn room_store_upserts_and_reads_back() {
    let mut store = RoomStore::new();
    store.upsert_room(&room("!a:x", Some("Alpha"), None, "Alpha"));
    store.upsert_room(&room("!a:x", Some("Alpha Renamed"), None, "Alpha"));
    let read = store.room_record("!a:x").expect("stored room");
    assert_eq!(read.current_display_name.as_deref(), Some("Alpha Renamed"));
    assert!(store.room_record("!missing:x").is_none());
    assert_eq!(store.fetch_rooms().len(), 1);
}

#[test]
fn rooms_are_listed_by_name_without_case() {
    let mut store = RoomStore::new();
    store.upsert_room(&room("!c:x", Some("charlie"), None, "charlie"));
    store.upsert_room(&room("!a:x", None, Some("#Alpha:x"), "alpha"));
    store.upsert_room(&room("!b:x", Some("Bravo"), None, "Bravo"));
    let names: Vec<String> = store.fetch_rooms().into_iter().map(|r| r.room_id).collect();
    assert_eq!(names, vec!["!a:x", "!b:x", "!c:x"]);
}

#[test]
fn folder_labels_are_lowered_once_and_skip_one_room() {
    let mut store = RoomStore::new();
    store.upsert_room(&room("!a:x", None, None, "Photos"));
    store.upsert_room(&room("!b:x", None, None, "photos"));
    store.upsert_room(&room("!c:x", None, None, "Work"));
    let mut all = store.all_folder_labels(None);
    all.sort();
    assert_eq!(all, vec!["photos", "work"]);
    let mut others = store.all_folder_labels(Some("!c:x"));
    others.sort();
    assert_eq!(others, vec!["photos"]);
}

#[test]
fn alias_history_lists_latest_first() {
    let mut store = RoomStore::new();
    store.insert_alias_history("!a:x", &vec!["#old:x".to_owned()], NOW);
    store.insert_alias_history("!a:x", &vec!["#new:x".to_owned()], NOW + 10);
    store.insert_alias_history("!b:x", &vec!["#other:x".to_owned()], NOW + 20);
    assert_eq!(store.alias_history("!a:x"), vec!["#new:x", "#old:x"]);
    assert_eq!(store.alias_history("!b:x"), vec!["#other:x"]);
    assert!(store.alias_history("!c:x").is_empty());
    assert_eq!(store.all_sightings().len(), 3);
}

#[test]
fn room_store_restore_refuses_duplicates() {
    let rooms = vec![room("!a:x", None, None, "a"), room("!a:x", None, None, "b")];
    assert!(RoomStore::restore(rooms, Vec::new()).is_none());
    let sightings = vec![
        AliasSighting { room_id: "!a:x".to_owned(), alias: "#a:x".to_owned(), seen_at: 1 },
        AliasSighting { room_id: "!a:x".to_owned(), alias: "#a:x".to_owned(), seen_at: 2 },
    ];
    assert!(RoomStore::restore(Vec::new(), sightings).is_none());
    let restored = RoomStore::restore(vec![room("!a:x", None, None, "a")], Vec::new()).expect("restored");
    assert_eq!(restored.fetch_rooms().len(), 1);
}

#[test]
fn timestamps_are_rfc3339_with_milliseconds() {
    assert_eq!(timestamp_text(NOW).unwrap(), "2023-11-14T22:13:20.000Z");
    assert_eq!(parse_optional_timestamp(Some("2023-11-14T22:13:20.000Z")).unwrap(), Some(NOW));
    assert_eq!(parse_optional_timestamp(None).unwrap(), None);
}

#[test]
fn unreadable_timestamps_are_errors() {
    match parse_optional_timestamp(Some("not a time")) {
        Err(ArchiveError::InvalidTimestamp { value }) => assert_eq!(value, "not a time"),
        other => panic!("unexpected {other:?}"),
    }
    match timestamp_text(i64::MAX) {
        Err(ArchiveError::InvalidTimestamp { value }) => assert_eq!(value, "9223372036854775807"),
        other => panic!("unexpected {other:?}"),
    }
}

#[test]
fn verification_steps_need_their_flows() {
    assert_eq!(decline_step(true, true).unwrap(), DeclineStep::Mismatch);
    assert_eq!(decline_step(false, true).unwrap(), DeclineStep::Cancel);
    assert!(matches!(decline_step(false, false), Err(ArchiveError::NoVerificationFlow)));
    assert!(approve_check(true).is_ok());
    assert!(matches!(approve_check(false), Err(ArchiveError::NoSasVerification)));
    assert!(matches!(sas_start_check(false, None), Err(ArchiveError::NoVerificationRequest)));
    assert!(matches!(sas_start_check(true, Some(false)), Err(ArchiveError::SasNotReady)));
    assert!(sas_start_check(true, None).is_ok());
    assert!(sas_start_check(true, Some(true)).is_ok());
    assert!(own_device_check(true).is_ok());
    assert!(matches!(own_device_check(false), Err(ArchiveError::NoOwnDevice)));
}

#[test]
fn verification_snapshot_carries_short_strings() {
    let emoji = VerificationEmoji { symbol: "🐶".to_owned(), description: "Dog".to_owned() };
    let snap = verification_snapshot(
        VerificationStatus::Unverified,
        Some("DEVICE".to_owned()),
        Some(vec![emoji]),
        Some((1, 2, 3)),
    );
    assert_eq!(snap.state, VerificationStatus::Unverified);
    assert_eq!(snap.device_id.as_deref(), Some("DEVICE"));
    assert_eq!(snap.emojis.len(), 1);
    assert_eq!(snap.decimals, vec![1, 2, 3]);
    let empty = verification_snapshot(VerificationStatus::Verified, None, None, None);
    assert!(empty.emojis.is_empty() && empty.decimals.is_empty());
}

#[test]
fn observed_event_records_attachment() {
    let media = MediaMessage {
        kind: MessageKind::Image,
        body: "cat.png".to_owned(),
        filename: None,
        mime_type: Some("image/png".to_owned()),
        source: StoredMediaSource::Plain("mxc://x/abc".to_owned()),
    };
    let e = observe_event("!r:x", Some("$e"), NOW as u64, "@u:x", Some("cat.png"), Some(&media))
        .unwrap();
    assert_eq!(e.stamp.event_id, "$e");
    assert_eq!(e.stamp.timestamp, NOW);
    assert_eq!(e.command_body.as_deref(), Some("cat.png"));
    let d = e.discovery.expect("discovery");
    assert_eq!(d.room_id, "!r:x");
    assert_eq!(d.category, MediaCategory::Images);
    assert_eq!(d.original_filename.as_deref(), Some("cat.png"));
    assert_eq!(d.mxc_url, "mxc://x/abc");
}

#[test]
fn observed_event_without_id_or_media() {
    let e = observe_event("!r:x", None, 5, "@u:x", None, None).unwrap();
    assert!(e.discovery.is_none());
    assert!(e.stamp.event_id.contains("@u:x"));
    assert!(matches!(
        observe_event("!r:x", None, u64::MAX, "@u:x", None, None),
        Err(ArchiveError::InvalidTimestamp { .. })
    ));
}

#[test]
fn timeline_changes_that_carry_items() {
    assert!(change_carries_items(TimelineChangeKind::Append));
    assert!(change_carries_items(TimelineChangeKind::Replace));
    assert!(!change_carries_items(TimelineChangeKind::Remove));
    assert!(!change_carries_items(TimelineChangeKind::Clear));
    assert!(!change_carries_items(TimelineChangeKind::Truncate));
}

#[test]
fn backfill_round_completes_at_room_start() {
    let c = new_checkpoint("!r:x");
    let done = finish_backfill_round(&c, &settings(), true, NOW).expect("complete");
    assert!(done.initial_backfill_complete);
    assert_eq!(done.last_history_mode, RoomHistoryMode::Complete);
    assert_eq!(done.last_history_run_at, Some(NOW));
    assert!(finish_backfill_round(&c, &settings(), false, NOW).is_none());
}

#[test]
fn catch_up_reads_a_bounded_number_of_pages() {
    assert!(catch_up_continues(0, false));
    assert!(!catch_up_continues(0, true));
    assert!(catch_up_continues(CATCH_UP_PAGES - 2, false));
    assert!(!catch_up_continues(CATCH_UP_PAGES - 1, false));
}

#[test]
fn any_source_marks_a_space() {
    assert!(!room_is_space(None, false, None));
    assert!(!room_is_space(Some(false), false, Some(false)));
    assert!(room_is_space(Some(true), false, None));
    assert!(room_is_space(None, true, None));
    assert!(room_is_space(None, false, Some(true)));
}

#[test]
fn only_owner_invitations_are_followed() {
    assert_eq!(invite_decision(None, "@owner:x"), InviteDecision::NoInviter);
    assert_eq!(invite_decision(Some("@owner:x"), "@owner:x"), InviteDecision::Accept);
    assert_eq!(invite_decision(Some("@else:x"), "@owner:x"), InviteDecision::Ignore);
    assert!(handles_invites(&settings()));
    let mut own = settings();
    own.username = "owner".to_owned();
    assert!(!handles_invites(&own));
}

#[test]
fn worker_snapshots_sorted_by_room() {
    let w = |id: &str| RoomWorkerSnapshot {
        room_id: id.to_owned(),
        live_watcher_active: true,
        history_mode: RoomHistoryMode::Idle,
        history_detail: String::new(),
    };
    let sorted = sort_worker_snapshots(&vec![w("!c:x"), w("!a:x"), w("!b:x")]);
    let ids: Vec<String> = sorted.into_iter().map(|s| s.room_id).collect();
    assert_eq!(ids, vec!["!a:x", "!b:x", "!c:x"]);
}

#[test]
fn downloads_run_only_while_running() {
    assert!(downloads_may_run(ConnectionState::Running));
    assert!(!downloads_may_run(ConnectionState::Starting));
    assert!(!downloads_may_run(ConnectionState::Stopped));
    assert!(!downloads_may_run(ConnectionState::Error));
}

#[test]
fn job_log_lines() {
    assert_eq!(duplicate_log("a.png"), "Skipped duplicate a.png");
    assert_eq!(completion_log("a.png", "Room/Images/a.png"), "Downloaded a.png -> Room/Images/a.png");
    let permanent = FailureDecision::CoolDown { retry_count: 3, next_eligible_at: 0, permanently_failed: true };
    let (level, text) = failure_log(&permanent, "a.png", "boom", "later");
    assert_eq!(level, AppLogLevel::Error);
    assert_eq!(text, "a.png failed permanently: boom");
    let cooling = FailureDecision::CoolDown { retry_count: 1, next_eligible_at: 0, permanently_failed: false };
    let (level, text) = failure_log(&cooling, "a.png", "boom", "later");
    assert_eq!(level, AppLogLevel::Warning);
    assert_eq!(text, "a.png failed. Cooling down until later: boom");
    let keys = FailureDecision::Undecryptable { next_eligible_at: 0 };
    let (_, text) = failure_log(&keys, "a.png", "decrypt", "later");
    assert_eq!(text, "Marked a.png as undecryptable pending keys until later.");
}

#[test]
fn saved_settings_read_back_with_clamped_workers() {
    let mut store = SettingsStore::new();
    let mut s = settings();
    s.download_worker_count = 40;
    store.save_settings(&s);
    let loaded = store.load_settings("/elsewhere");
    assert_eq!(loaded.download_worker_count, 6);
    assert_eq!(loaded.homeserver_url, s.homeserver_url);
    assert_eq!(loaded.destination_root_path, "/archive");
    let restored = SettingsStore::restore(None);
    let mut restored = restored;
    assert_eq!(restored.load_settings("/fresh").destination_root_path, "/fresh");
}

#[test]
fn owner_command_is_acted_on_once() {
    let mut handled = HandledEvents::new();
    assert_eq!(handled.accept_owner_command("@o:x", "$1", "@o:x", "!matrixdl join #a:x").as_deref(), Some("#a:x"));
    assert_eq!(handled.accept_owner_command("@o:x", "$1", "@o:x", "!matrixdl join #a:x"), None);
}

#[test]
fn stores_restore_only_consistent_contents() {
    let c = new_checkpoint("!r:x");
    assert!(CheckpointStore::restore(vec![c.clone(), c.clone()]).is_none());
    assert_eq!(CheckpointStore::restore(vec![c]).expect("restored").all_checkpoints().len(), 1);
    let entry = |id: i64| ActivityLogEntry {
        id,
        created_at: NOW,
        level: AppLogLevel::Info,
        subsystem: "test".to_owned(),
        message: "m".to_owned(),
    };
    assert!(ActivityLog::restore(vec![entry(2), entry(1)], 3).is_none());
    assert!(ActivityLog::restore(vec![entry(1)], 1).is_none());
    let log = ActivityLog::restore(vec![entry(1), entry(2)], 3).expect("restored");
    assert_eq!(log.next_log_id(), 3);
    let link = SpaceAutoJoinRecord {
        space_room_id: "!s:x".to_owned(),
        child_room_id: "!c:x".to_owned(),
        auto_joined_by_bot: true,
        created_at: NOW,
        updated_at: NOW,
    };
    assert!(SpaceLinkStore::restore(vec![link.clone(), link.clone()]).is_none());
    assert_eq!(SpaceLinkStore::restore(vec![link]).expect("restored").all_links().len(), 1);
}

#[test]
fn full_rescan_resets_checkpoints_and_forgets_jobs() {
    let mut checkpoints = CheckpointStore::new();
    let mut c = checkpoints.load_checkpoint("!r:x");
    c.historical_message_count = 40;
    c.initial_backfill_complete = true;
    checkpoints.save_checkpoint(&c);
    let mut queue = JobQueue::new();
    let discovery = AttachmentDiscovery {
        room_id: "!r:x".to_owned(),
        event_id: "$e".to_owned(),
        origin_server_timestamp: NOW,
        mxc_url: "mxc://x/e".to_owned(),
        original_filename: None,
        mime_type: None,
        category: MediaCategory::Other,
    };
    queue.enqueue_discovery(&discovery, NOW).unwrap();
    reset_all_history_scans_for_full_rescan(&mut checkpoints, &mut queue);
    let reset = checkpoints.all_checkpoints();
    assert_eq!(reset.len(), 1);
    assert_eq!(reset[0].historical_message_count, 0);
    assert!(!reset[0].initial_backfill_complete);
    assert!(queue.fetch_jobs(10, NOW).is_empty());
    assert!(queue.enqueue_discovery(&discovery, NOW).unwrap());
}

#[test]
fn owner_command_log_lines_and_replies() {
    assert_eq!(command_log("@o:x", "!r:x", "!matrixdl join #a:x"), "Command from @o:x in !r:x: !matrixdl join #a:x");
    let (level, line, reply) = join_command_outcome("#a:x", None);
    assert_eq!(level, AppLogLevel::Info);
    assert_eq!(line, "Followed join command: #a:x");
    assert_eq!(reply, "Joined #a:x");
    let (level, line, reply) = join_command_outcome("#a:x", Some("not found"));
    assert_eq!(level, AppLogLevel::Error);
    assert_eq!(line, "Join command failed for #a:x: not found");
    assert_eq!(reply, "Join failed for #a:x: not found");
}

#[test]
fn fresh_queue_and_log_start_at_one() {
    let mut queue = JobQueue::new();
    let discovery = AttachmentDiscovery {
        room_id: "!r:x".to_owned(),
        event_id: "$e".to_owned(),
        origin_server_timestamp: NOW,
        mxc_url: "mxc://x/e".to_owned(),
        original_filename: None,
        mime_type: None,
        category: MediaCategory::Other,
    };
    assert!(queue.enqueue_discovery(&discovery, NOW).unwrap());
    assert_eq!(queue.fetch_jobs(10, NOW)[0].id, 1);
    assert_eq!(queue.next_job_id(), 2);
    let mut log = ActivityLog::new();
    assert_eq!(log.next_log_id(), 1);
    assert!(log.insert_log(AppLogLevel::Info, "test", "hello", NOW).is_ok());
    let recent = log.fetch_recent_logs(1);
    assert_eq!(recent.len(), 1);
    assert_eq!(recent[0].id, 1);
    assert_eq!(recent[0].message, "hello");
}

#[test]
fn chrono_range_ends_where_stated() {
    assert_eq!(timestamp_text(CHRONO_MAX_MILLIS).unwrap(), "+262142-12-31T23:59:59.999Z");
    assert!(timestamp_text(CHRONO_MAX_MILLIS + 1).is_err());
    assert_eq!(timestamp_text(CHRONO_MIN_MILLIS).unwrap(), "-262143-01-01T00:00:00.000Z");
    match timestamp_text(CHRONO_MIN_MILLIS - 1) {
        Err(ArchiveError::InvalidTimestamp { value }) => assert_eq!(value, "-8334601228800001"),
        other => panic!("unexpected {:?}", other),
    }
}
