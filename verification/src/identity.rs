//! Matrix identities: the account the backend signs in as, stored sessions,
//! and which rooms a join request may name.

use vstd::prelude::*;
use crate::domain::{AppSettings, StoredSession};
use crate::error::ArchiveError;
use crate::text::{
    before_first_char, before_first_seq, contains_char, push_char, push_str,
    string_views, trim, trim_seq, trim_start_char, trim_start_char_seq,
};

verus! {

/// The parts of a URL that decide its origin.
#[derive(Clone, Debug)]
pub struct UrlOrigin {
    pub scheme: String,
    pub host: Option<String>,
    pub port: Option<u16>,
}

/// What `reqwest::Url::parse` gives for `text`: `None` when it fails, else the
/// URL's scheme, host (`host_str`) and port (`port_or_known_default`).
pub uninterp spec fn url_origin_of(text: Seq<char>) -> Option<(Seq<char>, Option<Seq<char>>, Option<u16>)>;

/// What `UserId::parse` gives for `text`: `None` when it fails, else the
/// user ID's localpart.
pub uninterp spec fn user_id_localpart_of(text: Seq<char>) -> Option<Seq<char>>;

/// What `RoomOrAliasId::parse` gives for `text`: `None` when it accepts the
/// text, else the message of the error it returns.
pub uninterp spec fn room_or_alias_parse_error_of(text: Seq<char>) -> Option<Seq<char>>;

/// Whether `RoomAliasId::parse` accepts `text`.
pub uninterp spec fn room_alias_id_valid(text: Seq<char>) -> bool;

/// Whether `ServerName::parse` accepts `text`.
pub uninterp spec fn server_name_valid(text: Seq<char>) -> bool;

pub open spec fn origin_view(o: UrlOrigin) -> (Seq<char>, Option<Seq<char>>, Option<u16>) {
    (
        o.scheme@,
        match o.host {
            Some(h) => Some(h@),
            None => None,
        },
        o.port,
    )
}

/// Parses `text` as a URL with `reqwest::Url::parse` and reads its scheme,
/// `host_str` and `port_or_known_default`. The contract claims only that the
/// result is a function of `text`.
#[verifier::external_body]
pub(crate) fn url_origin(text: &str) -> (r: Option<UrlOrigin>)
    ensures
        match r {
            None => url_origin_of(text@) is None,
            Some(o) => url_origin_of(text@) == Some(origin_view(o)),
        },
{
    reqwest::Url::parse(text).ok().map(
        |url| UrlOrigin {
            scheme: url.scheme().to_owned(),
            host: url.host_str().map(|h| h.to_owned()),
            port: url.port_or_known_default(),
        },
    )
}

/// Parses `text` with `matrix_sdk::ruma::UserId::parse` and returns the
/// localpart. As ruma's validation shows, a parsed user ID starts with `@`
/// and its localpart runs from there to the first `:`, which must exist.
#[verifier::external_body]
fn user_id_localpart(text: &str) -> (r: Option<String>)
    ensures
        match r {
            None => user_id_localpart_of(text@) is None,
            Some(l) => user_id_localpart_of(text@) == Some(l@),
        },
        r matches Some(l) ==> {
            &&& text@.len() > l@.len() + 1
            &&& text@[0] == '@'
            &&& text@.subrange(1, l@.len() + 1int) == l@
            &&& text@[l@.len() + 1int] == ':'
            &&& !l@.contains(':')
        },
        (text@.len() == 0 || text@[0] != '@' || !text@.contains(':')) ==> r is None,
{
    matrix_sdk::ruma::UserId::parse(text).ok().map(|u| u.localpart().to_owned())
}

/// Parses `text` with `matrix_sdk::ruma::RoomOrAliasId::parse` and returns the
/// message of its error, `None` when it accepts the text. As ruma's validation
/// shows, it accepts only text starting with `!` or `#`.
#[verifier::external_body]
fn room_or_alias_parse_error(text: &str) -> (r: Option<String>)
    ensures
        match r {
            None => room_or_alias_parse_error_of(text@) is None,
            Some(e) => room_or_alias_parse_error_of(text@) == Some(e@),
        },
        r is None ==> text@.len() > 0 && (text@[0] == '!' || text@[0] == '#'),
{
    matrix_sdk::ruma::RoomOrAliasId::parse(text).err().map(|e| e.to_string())
}

/// Whether `matrix_sdk::ruma::RoomAliasId::parse` accepts `text`. As ruma's
/// validation shows, such text starts with `#`, and for text starting with `#`
/// it agrees with `RoomOrAliasId::parse`.
#[verifier::external_body]
fn is_room_alias_id(text: &str) -> (r: bool)
    ensures
        r == room_alias_id_valid(text@),
        r ==> text@.len() > 0 && text@[0] == '#',
        text@.len() > 0 && text@[0] == '#' ==> r == (room_or_alias_parse_error_of(text@) is None),
{
    matrix_sdk::ruma::RoomAliasId::parse(text).is_ok()
}

/// Whether `matrix_sdk::ruma::ServerName::parse` accepts `text`.
#[verifier::external_body]
fn is_server_name(text: &str) -> (r: bool)
    ensures
        r == server_name_valid(text@),
{
    matrix_sdk::ruma::ServerName::parse(text).is_ok()
}

/// The host of the homeserver URL, when it parses and has one.
pub open spec fn url_host_of(text: Seq<char>) -> Option<Seq<char>> {
    match url_origin_of(text) {
        Some((_, host, _)) => host,
        None => None,
    }
}

/// The host of a URL, when it parses and has one.
pub fn url_host(text: &str) -> (r: Option<String>)
    ensures
        match r {
            None => url_host_of(text@) is None,
            Some(h) => url_host_of(text@) == Some(h@),
        },
{
    match url_origin(text) {
        Some(o) => o.host,
        None => None,
    }
}

/// The Matrix user ID the backend runs as, from the configured username and
/// the homeserver's host: a full ID is kept, `localpart:server` gains an `@`,
/// and a bare localpart is completed with the host (or kept when there is none).
pub open spec fn runtime_user_id_for_host(username: Seq<char>, host: Option<Seq<char>>) -> Option<
    Seq<char>,
> {
    let n = trim_seq(username);
    if n.len() == 0 {
        None
    } else if n[0] == '@' {
        Some(n)
    } else {
        let t = trim_start_char_seq(n, '@');
        if t.contains(':') {
            Some(seq!['@'] + t)
        } else {
            match host {
                Some(h) => if h.len() > 0 {
                    Some(seq!['@'] + t + seq![':'] + h)
                } else {
                    Some(t)
                },
                None => Some(t),
            }
        }
    }
}

/// The Matrix user ID the backend runs as, for the homeserver at a URL.
pub open spec fn runtime_user_id_text(username: Seq<char>, homeserver_url: Seq<char>) -> Option<
    Seq<char>,
> {
    runtime_user_id_for_host(username, url_host_of(homeserver_url))
}

/// The user ID for a configured username, given the homeserver's host.
pub fn runtime_user_id_with_host(username: &str, host: Option<&str>) -> (r: Option<String>)
    ensures
        r.deep_view() == runtime_user_id_for_host(username@, host.deep_view()),
{
    let normalized = trim(username);
    if normalized.as_str().unicode_len() == 0 {
        return None;
    }
    if normalized.as_str().get_char(0) == '@' {
        return Some(normalized);
    }
    let trimmed = trim_start_char(normalized.as_str(), '@');
    if contains_char(trimmed.as_str(), ':') {
        let mut r = String::new();
        push_char(&mut r, '@');
        push_str(&mut r, trimmed.as_str());
        assert(r@ =~= seq!['@'] + trimmed@);
        return Some(r);
    }
    match host {
        Some(h) => {
            if h.unicode_len() > 0 {
                let mut r = String::new();
                push_char(&mut r, '@');
                push_str(&mut r, trimmed.as_str());
                push_char(&mut r, ':');
                push_str(&mut r, h);
                assert(r@ =~= seq!['@'] + trimmed@ + seq![':'] + h@);
                Some(r)
            } else {
                Some(trimmed)
            }
        },
        None => Some(trimmed),
    }
}

pub fn runtime_user_id_from_settings(settings: &AppSettings) -> (r: Option<String>)
    ensures
        r.deep_view() == runtime_user_id_text(settings.username@, settings.homeserver_url@),
{
    let host = url_host(settings.homeserver_url.as_str());
    match host {
        Some(h) => runtime_user_id_with_host(settings.username.as_str(), Some(h.as_str())),
        None => runtime_user_id_with_host(settings.username.as_str(), None),
    }
}

/// The localpart a configured username names: without a leading `@`, up to
/// the first `:`.
pub open spec fn login_localpart(normalized: Seq<char>) -> Seq<char> {
    before_first_seq(trim_start_char_seq(normalized, '@'), ':')
}

/// A stored session belongs to the configured login, given the localpart
/// of the session's user ID (`None` when the ID does not parse): the
/// username names the session's user ID, either in full or by its localpart.
pub open spec fn login_names_session(
    session_user_id: Seq<char>,
    session_localpart: Option<Seq<char>>,
    username: Seq<char>,
) -> bool {
    let n = trim_seq(username);
    if n.len() == 0 {
        false
    } else if session_user_id == n {
        true
    } else {
        match session_localpart {
            Some(l) => l == login_localpart(n),
            None => false,
        }
    }
}

pub open spec fn session_matches_login(session_user_id: Seq<char>, username: Seq<char>) -> bool {
    login_names_session(session_user_id, user_id_localpart_of(session_user_id), username)
}

/// Whether the configured username names a session's user, given the
/// localpart of the session's user ID.
pub fn login_matches_session(
    session_user_id: &str,
    session_localpart: Option<&str>,
    username: &str,
) -> (r: bool)
    ensures
        r == login_names_session(session_user_id@, session_localpart.deep_view(), username@),
{
    let normalized = trim(username);
    if normalized.as_str().unicode_len() == 0 {
        return false;
    }
    if session_user_id.to_owned() == normalized {
        return true;
    }
    let trimmed = trim_start_char(normalized.as_str(), '@');
    let localpart = before_first_char(trimmed.as_str(), ':');
    match session_localpart {
        Some(l) => l.to_owned() == localpart,
        None => false,
    }
}

pub fn stored_session_matches_settings_login(
    stored_session: &StoredSession,
    settings: &AppSettings,
) -> (r: bool)
    ensures
        r == session_matches_login(stored_session.user_id@, settings.username@),
{
    match user_id_localpart(stored_session.user_id.as_str()) {
        Some(l) => login_matches_session(
            stored_session.user_id.as_str(),
            Some(l.as_str()),
            settings.username.as_str(),
        ),
        None => login_matches_session(stored_session.user_id.as_str(), None, settings.username.as_str()),
    }
}

/// A stored session is restored (rather than logging in again) when it
/// belongs to the same homeserver and login.
pub open spec fn session_reusable(session: StoredSession, settings: AppSettings) -> bool {
    session.homeserver_url@ == settings.homeserver_url@ && session_matches_login(
        session.user_id@,
        settings.username@,
    )
}

pub fn should_restore_session(stored_session: &StoredSession, settings: &AppSettings) -> (r: bool)
    ensures
        r == session_reusable(*stored_session, *settings),
{
    stored_session.homeserver_url == settings.homeserver_url
        && stored_session_matches_settings_login(stored_session, settings)
}

pub open spec fn account_mode_text(current_user_id: Seq<char>, owner_user_id: Seq<char>) -> Seq<
    char,
> {
    if current_user_id == owner_user_id {
        "sharedOwnerAccount"@
    } else {
        "dedicatedBot"@
    }
}

/// How the backend's account relates to the owner: the owner's own account,
/// or a dedicated bot.
pub fn account_mode(current_user_id: &str, owner_user_id: &str) -> (r: String)
    ensures
        r@ == account_mode_text(current_user_id@, owner_user_id@),
{
    if current_user_id.to_owned() == owner_user_id.to_owned() {
        String::from_str("sharedOwnerAccount")
    } else {
        String::from_str("dedicatedBot")
    }
}

/// How a join request reaches its room.
#[derive(Clone, Debug)]
pub struct JoinPlan {
    /// The servers to join through.
    pub via_servers: Vec<String>,
    /// Ask the homeserver which servers know the alias first.
    pub resolve_alias: bool,
}

pub open spec fn valid_servers(servers: Seq<String>) -> Seq<Seq<char>>
    decreases servers.len(),
{
    if servers.len() == 0 {
        Seq::empty()
    } else {
        let rest = valid_servers(servers.drop_last());
        if server_name_valid(servers.last()@) {
            rest.push(servers.last()@)
        } else {
            rest
        }
    }
}

pub open spec fn join_prefix_ok(target: Seq<char>) -> bool {
    target.len() > 0 && (target[0] == '!' || target[0] == '#')
}

/// Checks a join target and plans the join: the target must be a room alias
/// (`#room:server`) or room ID (`!id:server`), and a target that ruma rejects
/// is answered with ruma's own message; given servers are kept when
/// they are valid server names; without servers an alias is resolved first.
pub fn plan_join(room_id_or_alias: &str, via_servers: &Vec<String>) -> (r: Result<
    JoinPlan,
    ArchiveError,
>)
    ensures
        !join_prefix_ok(room_id_or_alias@) ==> r matches Err(ArchiveError::InvalidJoinTarget),
        join_prefix_ok(room_id_or_alias@) && room_or_alias_parse_error_of(room_id_or_alias@) is Some
            ==> (r matches Err(ArchiveError::InvalidRoomReference { reason }) && Some(reason@)
            == room_or_alias_parse_error_of(room_id_or_alias@)),
        r matches Ok(plan) ==> {
            &&& join_prefix_ok(room_id_or_alias@)
            &&& room_or_alias_parse_error_of(room_id_or_alias@) is None
            &&& string_views(plan.via_servers@) == valid_servers(via_servers@)
            &&& plan.resolve_alias == (via_servers@.len() == 0 && room_alias_id_valid(
                room_id_or_alias@,
            ))
        },
        join_prefix_ok(room_id_or_alias@) && room_or_alias_parse_error_of(room_id_or_alias@) is None
            ==> r is Ok,
{
    let n = room_id_or_alias.unicode_len();
    if n == 0 {
        return Err(ArchiveError::InvalidJoinTarget);
    }
    let first = room_id_or_alias.get_char(0);
    if first != '!' && first != '#' {
        return Err(ArchiveError::InvalidJoinTarget);
    }
    if let Some(reason) = room_or_alias_parse_error(room_id_or_alias) {
        return Err(ArchiveError::InvalidRoomReference { reason });
    }
    let mut via: Vec<String> = Vec::new();
    let mut i: usize = 0;
    while i < via_servers.len()
        invariant
            i <= via_servers@.len(),
            string_views(via@) == valid_servers(via_servers@.take(i as int)),
        decreases via_servers@.len() - i,
    {
        proof {
            assert(via_servers@.take(i + 1).drop_last() =~= via_servers@.take(i as int));
            assert(via_servers@.take(i + 1).last() == via_servers@[i as int]);
        }
        if is_server_name(via_servers[i].as_str()) {
            let ghost before = via@;
            via.push(via_servers[i].clone());
            proof {
                assert(string_views(via@) =~= string_views(before).push(
                    via_servers@[i as int]@,
                ));
            }
        }
        i = i + 1;
    }
    proof {
        assert(via_servers@.take(via_servers@.len() as int) =~= via_servers@);
    }
    let resolve_alias = via_servers.len() == 0 && is_room_alias_id(room_id_or_alias);
    Ok(JoinPlan { via_servers: via, resolve_alias })
}

/// Who the backend runs as once connected.
#[derive(Clone, Debug)]
pub struct ConnectedIdentity {
    pub user_id: String,
    pub device_id: String,
    pub account_mode: String,
}

/// The identity published after connecting: the user ID the settings give,
/// the device the client reports, and how the account relates to the owner.
pub fn connected_identity(settings: &AppSettings, device_id: Option<&str>) -> (r: Result<
    ConnectedIdentity,
    ArchiveError,
>)
    ensures
        runtime_user_id_text(settings.username@, settings.homeserver_url@) is None ==> r matches Err(
            ArchiveError::MissingUserId,
        ),
        runtime_user_id_text(settings.username@, settings.homeserver_url@) is Some && device_id is None
            ==> r matches Err(ArchiveError::MissingDeviceId),
        r matches Ok(id) ==> {
            &&& runtime_user_id_text(settings.username@, settings.homeserver_url@) == Some(id.user_id@)
            &&& device_id.deep_view() == Some(id.device_id@)
            &&& id.account_mode@ == account_mode_text(id.user_id@, settings.owner_user_id@)
        },
        runtime_user_id_text(settings.username@, settings.homeserver_url@) is Some && device_id is Some
            ==> r is Ok,
{
    let user_id = match runtime_user_id_from_settings(settings) {
        Some(u) => u,
        None => return Err(ArchiveError::MissingUserId),
    };
    let device = match device_id {
        Some(d) => d.to_owned(),
        None => return Err(ArchiveError::MissingDeviceId),
    };
    let mode = account_mode(user_id.as_str(), settings.owner_user_id.as_str());
    Ok(ConnectedIdentity { user_id, device_id: device, account_mode: mode })
}

/// What happens to an invitation.
#[derive(Clone, Copy, Debug, PartialEq, Eq, Structural)]
pub enum InviteDecision {
    /// Nobody is named as inviter: leave it.
    NoInviter,
    /// Someone other than the owner invited: leave it, and log that.
    Ignore,
    /// The owner invited: join.
    Accept,
}

/// Invitations are followed only when the owner sent them.
pub fn invite_decision(inviter: Option<&str>, owner_user_id: &str) -> (r: InviteDecision)
    ensures
        inviter is None ==> r == InviteDecision::NoInviter,
        inviter matches Some(i) ==> (r == if i@ == owner_user_id@ {
            InviteDecision::Accept
        } else {
            InviteDecision::Ignore
        }),
{
    match inviter {
        None => InviteDecision::NoInviter,
        Some(i) => if i.to_owned() == owner_user_id.to_owned() {
            InviteDecision::Accept
        } else {
            InviteDecision::Ignore
        },
    }
}

/// Invitations are looked at only on a bot account: on the owner's own
/// account the owner manages them.
pub fn handles_invites(settings: &AppSettings) -> (r: bool)
    ensures
        r == (match runtime_user_id_text(settings.username@, settings.homeserver_url@) {
            Some(u) => u,
            None => Seq::<char>::empty(),
        } != settings.owner_user_id@),
{
    let current = match runtime_user_id_from_settings(settings) {
        Some(u) => u,
        None => String::new(),
    };
    current != settings.owner_user_id
}

} // verus!
