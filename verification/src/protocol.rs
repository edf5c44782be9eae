//! Messages exchanged with the user interface, and how the service answers a command.

use vstd::prelude::*;
use crate::domain::{AppSettings, BotRuntimeSnapshot};
use crate::error::ArchiveError;

verus! {

/// A command with the identifier its response will carry.
#[derive(Clone, Debug)]
pub struct CommandEnvelope {
    pub id: u64,
    pub command: Command,
}

#[derive(Clone, Debug)]
pub enum Command {
    Start { settings: AppSettings, password: String },
    Stop,
    SaveSettings { settings: AppSettings, password: String },
    JoinRoom { room_id_or_alias: String },
    LeaveRoom { room_id: String },
    RequestVerification,
    StartSasVerification,
    ApproveVerification,
    DeclineVerification,
    ResetHistoryScans,
    Shutdown,
}

#[derive(Clone, Debug)]
pub enum ServerEvent {
    Response { id: u64, ok: bool, error: Option<String> },
    Runtime { snapshot: BotRuntimeSnapshot },
}

/// Whether the service keeps reading commands after this one.
#[derive(Clone, Copy, Debug, PartialEq, Eq, Structural)]
pub enum CommandOutcome {
    Continue,
    Shutdown,
}

/// The work a command asks of the service.
#[derive(Clone, Debug)]
pub enum ServiceAction {
    Start { settings: AppSettings, password: String },
    Stop,
    SaveSettings { settings: AppSettings, password: String },
    JoinRoom { room_id_or_alias: String },
    LeaveRoom { room_id: String },
    RequestVerification,
    StartSasVerification,
    ApproveVerification,
    DeclineVerification,
    ResetHistoryScans,
}

/// A command that only a connected Matrix client can carry out.
pub open spec fn needs_client(command: Command) -> bool {
    match command {
        Command::JoinRoom { .. } | Command::LeaveRoom { .. } | Command::RequestVerification
        | Command::StartSasVerification | Command::ApproveVerification
        | Command::DeclineVerification => true,
        _ => false,
    }
}

pub open spec fn action_of(command: Command) -> ServiceAction {
    match command {
        Command::Start { settings, password } => ServiceAction::Start { settings, password },
        Command::Stop => ServiceAction::Stop,
        Command::SaveSettings { settings, password } => ServiceAction::SaveSettings {
            settings,
            password,
        },
        Command::JoinRoom { room_id_or_alias } => ServiceAction::JoinRoom { room_id_or_alias },
        Command::LeaveRoom { room_id } => ServiceAction::LeaveRoom { room_id },
        Command::RequestVerification => ServiceAction::RequestVerification,
        Command::StartSasVerification => ServiceAction::StartSasVerification,
        Command::ApproveVerification => ServiceAction::ApproveVerification,
        Command::DeclineVerification => ServiceAction::DeclineVerification,
        Command::ResetHistoryScans => ServiceAction::ResetHistoryScans,
        Command::Shutdown => ServiceAction::Stop,
    }
}

pub open spec fn outcome_of(command: Command) -> CommandOutcome {
    match command {
        Command::Shutdown => CommandOutcome::Shutdown,
        _ => CommandOutcome::Continue,
    }
}

/// Decides what a command asks of the service: the action to carry out and
/// whether the service goes on afterwards. Commands that need the Matrix
/// client are refused while the service is stopped.
pub fn plan_command(command: Command, running: bool) -> (r: Result<
    (ServiceAction, CommandOutcome),
    ArchiveError,
>)
    ensures
        needs_client(command) && !running ==> r matches Err(ArchiveError::NotConnected),
        !(needs_client(command) && !running) ==> r == Ok::<_, ArchiveError>(
            (action_of(command), outcome_of(command)),
        ),
{
    let client_needed = match &command {
        Command::JoinRoom { .. } | Command::LeaveRoom { .. } | Command::RequestVerification
        | Command::StartSasVerification | Command::ApproveVerification
        | Command::DeclineVerification => true,
        _ => false,
    };
    if client_needed && !running {
        return Err(ArchiveError::NotConnected);
    }
    match command {
        Command::Start { settings, password } => Ok(
            (ServiceAction::Start { settings, password }, CommandOutcome::Continue),
        ),
        Command::Stop => Ok((ServiceAction::Stop, CommandOutcome::Continue)),
        Command::SaveSettings { settings, password } => Ok(
            (ServiceAction::SaveSettings { settings, password }, CommandOutcome::Continue),
        ),
        Command::JoinRoom { room_id_or_alias } => Ok(
            (ServiceAction::JoinRoom { room_id_or_alias }, CommandOutcome::Continue),
        ),
        Command::LeaveRoom { room_id } => Ok(
            (ServiceAction::LeaveRoom { room_id }, CommandOutcome::Continue),
        ),
        Command::RequestVerification => Ok(
            (ServiceAction::RequestVerification, CommandOutcome::Continue),
        ),
        Command::StartSasVerification => Ok(
            (ServiceAction::StartSasVerification, CommandOutcome::Continue),
        ),
        Command::ApproveVerification => Ok(
            (ServiceAction::ApproveVerification, CommandOutcome::Continue),
        ),
        Command::DeclineVerification => Ok(
            (ServiceAction::DeclineVerification, CommandOutcome::Continue),
        ),
        Command::ResetHistoryScans => Ok((ServiceAction::ResetHistoryScans, CommandOutcome::Continue)),
        Command::Shutdown => Ok((ServiceAction::Stop, CommandOutcome::Shutdown)),
    }
}

/// The response event for a command, from its result.
pub fn response_event(id: u64, error: Option<String>) -> (r: ServerEvent)
    ensures
        r == (ServerEvent::Response { id, ok: error is None, error }),
{
    let ok = error.is_none();
    ServerEvent::Response { id, ok, error }
}

/// What saving settings does to the service.
#[derive(Clone, Copy, Debug, PartialEq, Eq, Structural)]
pub enum SettingsChange {
    /// Connect anew with the new settings.
    Restart,
    /// Stop the service.
    Stop,
    /// Keep the connection; restart the download workers and refresh rooms
    /// if running.
    Refresh,
}

/// A change of homeserver, account, owner or password needs a new
/// connection.
pub open spec fn needs_reconnect(
    previous: AppSettings,
    previous_password: Seq<char>,
    settings: AppSettings,
    password: Seq<char>,
) -> bool {
    ||| previous.homeserver_url@ != settings.homeserver_url@
    ||| previous.username@ != settings.username@
    ||| previous.owner_user_id@ != settings.owner_user_id@
    ||| previous_password != password
}

pub open spec fn settings_change_of(
    previous: AppSettings,
    previous_password: Seq<char>,
    settings: AppSettings,
    password: Seq<char>,
) -> SettingsChange {
    if needs_reconnect(previous, previous_password, settings, password) && settings.desired_power_state {
        SettingsChange::Restart
    } else if !settings.desired_power_state {
        SettingsChange::Stop
    } else {
        SettingsChange::Refresh
    }
}

/// Decides what saving new settings does: reconnect when the connection
/// details changed and the power is to be on, stop when it is to be off,
/// otherwise refresh the running service.
pub fn settings_change(
    previous: &AppSettings,
    previous_password: &str,
    settings: &AppSettings,
    password: &str,
) -> (r: SettingsChange)
    ensures
        r == settings_change_of(*previous, previous_password@, *settings, password@),
{
    let reconnect = previous.homeserver_url != settings.homeserver_url || previous.username
        != settings.username || previous.owner_user_id != settings.owner_user_id
        || previous_password.to_owned() != password.to_owned();
    if reconnect && settings.desired_power_state {
        SettingsChange::Restart
    } else if !settings.desired_power_state {
        SettingsChange::Stop
    } else {
        SettingsChange::Refresh
    }
}

/// Saving settings that leave the connection details alone never reconnects.
pub proof fn law_unchanged_login_never_reconnects(
    previous: AppSettings,
    password: Seq<char>,
    settings: AppSettings,
)
    requires
        previous.homeserver_url@ == settings.homeserver_url@,
        previous.username@ == settings.username@,
        previous.owner_user_id@ == settings.owner_user_id@,
    ensures
        settings_change_of(previous, password, settings, password) != SettingsChange::Restart,
{
}

/// With the power on, saving settings that change any connection detail (the
/// homeserver URL, the user name, the owner or the password) reconnects,
/// whatever else changed; with the power off the service stops; with the
/// power on and the same connection details it is refreshed.
pub proof fn law_changed_login_reconnects(
    previous: AppSettings,
    previous_password: Seq<char>,
    settings: AppSettings,
    password: Seq<char>,
)
    ensures
        settings.desired_power_state && previous.homeserver_url@ != settings.homeserver_url@
            ==> settings_change_of(previous, previous_password, settings, password)
            == SettingsChange::Restart,
        settings.desired_power_state && previous.username@ != settings.username@ ==> settings_change_of(
            previous,
            previous_password,
            settings,
            password,
        ) == SettingsChange::Restart,
        settings.desired_power_state && previous.owner_user_id@ != settings.owner_user_id@
            ==> settings_change_of(previous, previous_password, settings, password)
            == SettingsChange::Restart,
        settings.desired_power_state && previous_password != password ==> settings_change_of(
            previous,
            previous_password,
            settings,
            password,
        ) == SettingsChange::Restart,
        !settings.desired_power_state ==> settings_change_of(previous, previous_password, settings, password)
            == SettingsChange::Stop,
        settings.desired_power_state && previous.homeserver_url@ == settings.homeserver_url@
            && previous.username@ == settings.username@ && previous.owner_user_id@
            == settings.owner_user_id@ && previous_password == password ==> settings_change_of(
            previous,
            previous_password,
            settings,
            password,
        ) == SettingsChange::Refresh,
{
}

} // verus!
