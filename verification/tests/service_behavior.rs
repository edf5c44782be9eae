use media_archiver::domain::{
    AppSettings, ConnectionState, FailedJobRetentionUnit, StoredSession, TimeWindowUnit,
};
use media_archiver::identity::{
    account_mode, connected_identity, login_matches_session, plan_join,
    runtime_user_id_from_settings, runtime_user_id_with_host, should_restore_session,
    stored_session_matches_settings_login, url_host,
};
use media_archiver::error::ArchiveError;
use media_archiver::runtime::{
    background_work_allowed, connection_state_from_sync_state, sync_state_needs_warning, SyncPhase,
};

fn settings_for(homeserver_url: &str, username: &str) -> AppSettings {
    AppSettings {
        homeserver_url: homeserver_url.to_owned(),
        username: username.to_owned(),
        owner_user_id: String::new(),
        destination_root_path: String::new(),
        message_limit: 0,
        time_window_value: 0,
        time_window_unit: TimeWindowUnit::Day,
        retry_cooldown_minutes: 0,
        retry_limit: 0,
        download_worker_count: 0,
        failed_job_retention_value: 0,
        failed_job_retention_unit: FailedJobRetentionUnit::Day,
        desired_power_state: true,
    }
}

#[test]
fn connection_state_mapping_matches_swift_port_behavior() {
    assert_eq!(connection_state_from_sync_state(SyncPhase::Idle), ConnectionState::Starting);
    assert_eq!(connection_state_from_sync_state(SyncPhase::Running), ConnectionState::Running);
    assert_eq!(connection_state_from_sync_state(SyncPhase::Terminated), ConnectionState::Stopped);
}

#[test]
fn stored_session_restore_only_matches_same_login_identity() {
    let stored_session = StoredSession {
        access_token: "token".to_owned(),
        refresh_token: None,
        user_id: "@meow:fantasyhaven.me".to_owned(),
        device_id: "DEVICE".to_owned(),
        homeserver_url: "https://fantasyhaven.me".to_owned(),
        sliding_sync_version: None,
    };
    let exact_settings = settings_for("https://fantasyhaven.me", "@meow:fantasyhaven.me");
    let localpart_settings = AppSettings { username: "meow".to_owned(), ..exact_settings.clone() };
    let different_user_settings =
        AppSettings { username: "someoneelse".to_owned(), ..exact_settings.clone() };

    assert!(stored_session_matches_settings_login(&stored_session, &exact_settings));
    assert!(stored_session_matches_settings_login(&stored_session, &localpart_settings));
    assert!(!stored_session_matches_settings_login(&stored_session, &different_user_settings));
}

#[test]
fn runtime_user_id_from_settings_preserves_full_matrix_id() {
    let settings = settings_for("https://fantasyhaven.me", "@meow:fantasyhaven.me");
    assert_eq!(runtime_user_id_from_settings(&settings).as_deref(), Some("@meow:fantasyhaven.me"));
}

#[test]
fn runtime_user_id_from_settings_expands_localpart_with_homeserver() {
    let settings = settings_for("https://fantasyhaven.me", "meow");
    assert_eq!(runtime_user_id_from_settings(&settings).as_deref(), Some("@meow:fantasyhaven.me"));
}

#[test]
fn offline_and_error_sync_states_are_errors_and_warned() {
    assert_eq!(connection_state_from_sync_state(SyncPhase::Offline), ConnectionState::Error);
    assert_eq!(connection_state_from_sync_state(SyncPhase::Error), ConnectionState::Error);
    assert!(sync_state_needs_warning(SyncPhase::Offline));
    assert!(sync_state_needs_warning(SyncPhase::Error));
    assert!(!sync_state_needs_warning(SyncPhase::Running));
    assert!(background_work_allowed(ConnectionState::Running));
    assert!(background_work_allowed(ConnectionState::Starting));
    assert!(!background_work_allowed(ConnectionState::Stopped));
    assert!(!background_work_allowed(ConnectionState::Error));
}

#[test]
fn runtime_user_id_variants() {
    assert_eq!(runtime_user_id_with_host("  meow:other.org ", Some("x.org")).as_deref(), Some("@meow:other.org"));
    assert_eq!(runtime_user_id_with_host("@@meow", Some("x.org")).as_deref(), Some("@@meow"));
    assert_eq!(runtime_user_id_with_host("meow", None).as_deref(), Some("meow"));
    assert_eq!(runtime_user_id_with_host("meow", Some("")).as_deref(), Some("meow"));
    assert_eq!(runtime_user_id_with_host("   ", Some("x.org")), None);
    let settings = settings_for("not a url", "meow");
    assert_eq!(runtime_user_id_from_settings(&settings).as_deref(), Some("meow"));
}

#[test]
fn url_host_reads_the_homeserver_host() {
    assert_eq!(url_host("https://fantasyhaven.me").as_deref(), Some("fantasyhaven.me"));
    assert_eq!(url_host("https://Matrix.Example.org:8448/path").as_deref(), Some("matrix.example.org"));
    assert_eq!(url_host("not a url"), None);
}

#[test]
fn login_matches_session_by_localpart() {
    assert!(login_matches_session("@meow:x.org", Some("meow"), "@meow:elsewhere.org"));
    assert!(!login_matches_session("@meow:x.org", None, "meow"));
    assert!(!login_matches_session("@meow:x.org", Some("meow"), "   "));
    assert!(login_matches_session("@meow:x.org", None, " @meow:x.org "));
}

#[test]
fn session_is_restored_only_for_same_homeserver() {
    let stored_session = StoredSession {
        access_token: "token".to_owned(),
        refresh_token: None,
        user_id: "@meow:fantasyhaven.me".to_owned(),
        device_id: "DEVICE".to_owned(),
        homeserver_url: "https://fantasyhaven.me".to_owned(),
        sliding_sync_version: None,
    };
    assert!(should_restore_session(&stored_session, &settings_for("https://fantasyhaven.me", "meow")));
    assert!(!should_restore_session(&stored_session, &settings_for("https://other.example", "meow")));
}

#[test]
fn account_mode_distinguishes_owner_and_bot() {
    assert_eq!(account_mode("@owner:x.org", "@owner:x.org"), "sharedOwnerAccount");
    assert_eq!(account_mode("@bot:x.org", "@owner:x.org"), "dedicatedBot");
}

#[test]
fn connected_identity_needs_user_and_device() {
    let mut settings = settings_for("https://fantasyhaven.me", "meow");
    settings.owner_user_id = "@meow:fantasyhaven.me".to_owned();
    let identity = connected_identity(&settings, Some("DEVICE")).expect("identity");
    assert_eq!(identity.user_id, "@meow:fantasyhaven.me");
    assert_eq!(identity.device_id, "DEVICE");
    assert_eq!(identity.account_mode, "sharedOwnerAccount");
    assert!(matches!(connected_identity(&settings, None), Err(ArchiveError::MissingDeviceId)));
    let empty = settings_for("https://fantasyhaven.me", " ");
    assert!(matches!(connected_identity(&empty, Some("DEVICE")), Err(ArchiveError::MissingUserId)));
    assert_eq!(
        ArchiveError::MissingDeviceId.message(),
        "Connected Matrix client has no device id"
    );
    assert_eq!(
        ArchiveError::MissingUserId.message(),
        "Connected Matrix client has no configured user id"
    );
}

#[test]
fn join_targets_are_checked_and_planned() {
    assert!(matches!(plan_join("room", &vec![]), Err(ArchiveError::InvalidJoinTarget)));
    assert!(matches!(plan_join("", &vec![]), Err(ArchiveError::InvalidJoinTarget)));
    match plan_join("#no-server", &vec![]) {
        Err(ArchiveError::InvalidRoomReference { reason }) => {
            assert_eq!(reason, "required colon is missing")
        },
        other => panic!("unexpected {:?}", other),
    }
    let alias = plan_join("#room:example.org", &vec![]).expect("alias plan");
    assert!(alias.resolve_alias);
    assert!(alias.via_servers.is_empty());
    let id = plan_join(
        "!abc:example.org",
        &vec!["example.org".to_owned(), "bad server!".to_owned(), "other.org".to_owned()],
    )
    .expect("room id plan");
    assert!(!id.resolve_alias);
    assert_eq!(id.via_servers, vec!["example.org".to_owned(), "other.org".to_owned()]);
    assert_eq!(
        ArchiveError::InvalidJoinTarget.message(),
        "Room joins require a Matrix room alias (#room:server) or room ID (!id:server)."
    );
    let rejected = plan_join("#a:b:c d", &vec![]).expect_err("bad server part");
    assert_eq!(rejected.message(), "server name is not a valid IP address or domain name");
    assert_eq!(
        ArchiveError::InvalidRoomReference { reason: "required colon is missing".to_owned() }
            .message(),
        "required colon is missing"
    );
}
