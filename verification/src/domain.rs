//! The backend's data model: settings, checkpoints, jobs and runtime snapshots.
//!
//! Instants are milliseconds since the Unix epoch (UTC).

use vstd::prelude::*;

verus! {

/// How far back the initial history scan reaches.
#[derive(Clone, Copy, Debug, PartialEq, Eq, Structural)]
pub enum TimeWindowUnit {
    Disabled,
    Day,
    Week,
    Month,
}

/// After how long permanently failed jobs are cleared automatically.
#[derive(Clone, Copy, Debug, PartialEq, Eq, Structural)]
pub enum FailedJobRetentionUnit {
    Disabled,
    Minute,
    Hour,
    Day,
}

#[derive(Clone, Copy, Debug, PartialEq, Eq, Structural)]
pub enum ConnectionState {
    Stopped,
    Starting,
    Running,
    Error,
}

#[derive(Clone, Copy, Debug, PartialEq, Eq, Structural)]
pub enum RoomHistoryMode {
    Idle,
    InitialBackfill,
    ReconnectCatchUp,
    Complete,
}

#[derive(Clone, Copy, Debug, PartialEq, Eq, Structural)]
pub enum DownloadJobState {
    Queued,
    Downloading,
    CoolingDown,
    UndecryptablePending,
    FailedPermanent,
    Completed,
    DuplicateCompleted,
}

#[derive(Clone, Copy, Debug, PartialEq, Eq, Structural)]
pub enum MediaCategory {
    Images,
    Videos,
    Audio,
    Other,
}

#[derive(Clone, Copy, Debug, PartialEq, Eq, Structural)]
pub enum AppLogLevel {
    Info,
    Warning,
    Error,
}

#[derive(Clone, Copy, Debug, PartialEq, Eq, Structural)]
pub enum VerificationStatus {
    Unknown,
    Verified,
    Unverified,
}

/// The user's settings as the backend stores them.
#[derive(Clone, Debug)]
pub struct AppSettings {
    pub homeserver_url: String,
    pub username: String,
    pub owner_user_id: String,
    pub destination_root_path: String,
    pub message_limit: i64,
    pub time_window_value: i32,
    pub time_window_unit: TimeWindowUnit,
    pub retry_cooldown_minutes: i32,
    pub retry_limit: i32,
    pub download_worker_count: i32,
    pub failed_job_retention_value: i32,
    pub failed_job_retention_unit: FailedJobRetentionUnit,
    pub desired_power_state: bool,
}

/// History-scan progress of one room.
#[derive(Clone, Debug)]
pub struct RoomCheckpoint {
    pub room_id: String,
    pub last_processed_event_id: Option<String>,
    pub last_processed_timestamp: Option<i64>,
    pub oldest_backfilled_event_id: Option<String>,
    pub oldest_backfilled_timestamp: Option<i64>,
    pub historical_message_count: i64,
    pub initial_backfill_complete: bool,
    pub last_history_mode: RoomHistoryMode,
    pub last_history_run_at: Option<i64>,
}

/// A media attachment seen in a room timeline.
#[derive(Clone, Debug)]
pub struct AttachmentDiscovery {
    pub room_id: String,
    pub event_id: String,
    pub origin_server_timestamp: i64,
    pub mxc_url: String,
    pub original_filename: Option<String>,
    pub mime_type: Option<String>,
    pub category: MediaCategory,
}

/// One row of the download queue.
#[derive(Clone, Debug)]
pub struct DownloadJobRecord {
    pub id: i64,
    pub room_id: String,
    pub event_id: String,
    pub mxc_url: String,
    pub original_filename: Option<String>,
    pub mime_type: Option<String>,
    pub category: MediaCategory,
    pub state: DownloadJobState,
    pub retry_count: i32,
    pub next_eligible_at: Option<i64>,
    pub last_failure_at: Option<i64>,
    pub last_error: Option<String>,
    pub sha256: Option<String>,
    pub saved_relative_path: Option<String>,
    pub created_at: i64,
    pub updated_at: i64,
}

/// A stored room-to-space link.
#[derive(Clone, Debug)]
pub struct SpaceAutoJoinRecord {
    pub space_room_id: String,
    pub child_room_id: String,
    pub auto_joined_by_bot: bool,
    pub created_at: i64,
    pub updated_at: i64,
}

/// A child room announced by a space.
#[derive(Clone, Debug)]
pub struct SpaceChildDescriptor {
    pub room_id: String,
    pub via_servers: Vec<String>,
}

/// What the hierarchy endpoint says about a room.
#[derive(Clone, Debug)]
pub struct RoomHierarchySnapshot {
    pub room_id: String,
    pub is_space: bool,
    pub display_name: Option<String>,
    pub canonical_alias: Option<String>,
    pub children: Vec<SpaceChildDescriptor>,
}

/// The login session the backend keeps between launches.
#[derive(Clone, Debug)]
pub struct StoredSession {
    pub access_token: String,
    pub refresh_token: Option<String>,
    pub user_id: String,
    pub device_id: String,
    pub homeserver_url: String,
    pub sliding_sync_version: Option<String>,
}

#[derive(Clone, Debug)]
pub struct RoomWorkerSnapshot {
    pub room_id: String,
    pub live_watcher_active: bool,
    pub history_mode: RoomHistoryMode,
    pub history_detail: String,
}

#[derive(Clone, Debug)]
pub struct ActiveDownloadSnapshot {
    pub worker_id: i32,
    pub job_id: i64,
    pub room_id: String,
    pub filename: String,
    pub received_bytes: i64,
    pub total_bytes: Option<i64>,
}

#[derive(Clone, Debug)]
pub struct VerificationEmoji {
    pub symbol: String,
    pub description: String,
}

#[derive(Clone, Debug)]
pub struct VerificationSnapshot {
    pub state: VerificationStatus,
    pub device_id: Option<String>,
    pub emojis: Vec<VerificationEmoji>,
    pub decimals: Vec<u16>,
}

/// Everything the user interface shows about the running backend.
#[derive(Clone, Debug)]
pub struct BotRuntimeSnapshot {
    pub connection_state: ConnectionState,
    pub current_user_id: Option<String>,
    pub device_id: Option<String>,
    pub account_mode: Option<String>,
    pub active_downloads: Vec<ActiveDownloadSnapshot>,
    pub worker_states: Vec<RoomWorkerSnapshot>,
    pub verification: VerificationSnapshot,
}

impl BotRuntimeSnapshot {
    pub open spec fn is_initial(self) -> bool {
        &&& self.connection_state == ConnectionState::Stopped
        &&& self.current_user_id is None
        &&& self.device_id is None
        &&& self.account_mode is None
        &&& self.active_downloads@.len() == 0
        &&& self.worker_states@.len() == 0
        &&& self.verification.state == VerificationStatus::Unknown
        &&& self.verification.device_id is None
        &&& self.verification.emojis@.len() == 0
        &&& self.verification.decimals@.len() == 0
    }

    /// The snapshot of a backend that has not started.
    pub fn initial() -> (r: Self)
        ensures
            r.is_initial(),
    {
        BotRuntimeSnapshot {
            connection_state: ConnectionState::Stopped,
            current_user_id: None,
            device_id: None,
            account_mode: None,
            active_downloads: Vec::new(),
            worker_states: Vec::new(),
            verification: VerificationSnapshot {
                state: VerificationStatus::Unknown,
                device_id: None,
                emojis: Vec::new(),
                decimals: Vec::new(),
            },
        }
    }

    /// An otherwise initial snapshot in the given connection state.
    pub fn with_state(state: ConnectionState) -> (r: Self)
        ensures
            r.connection_state == state,
            (BotRuntimeSnapshot { connection_state: ConnectionState::Stopped, ..r }).is_initial(),
    {
        let mut r = Self::initial();
        r.connection_state = state;
        r
    }
}

impl Default for BotRuntimeSnapshot {
    fn default() -> (r: Self)
        ensures
            r.is_initial(),
    {
        Self::initial()
    }
}

/// One line of the activity log.
#[derive(Clone, Debug)]
pub struct ActivityLogEntry {
    pub id: i64,
    pub created_at: i64,
    pub level: AppLogLevel,
    pub subsystem: String,
    pub message: String,
}

/// What the archive knows of a joined room.
#[derive(Clone, Debug)]
pub struct RoomRecord {
    pub room_id: String,
    pub current_display_name: Option<String>,
    pub current_canonical_alias: Option<String>,
    pub active_folder_label: String,
    pub is_space: bool,
    pub membership: String,
    pub updated_at: i64,
}

} // verus!
