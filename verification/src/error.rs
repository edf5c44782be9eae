//! Errors that the library itself reports.

use vstd::prelude::*;
use crate::text::push_str;

verus! {

#[derive(Clone, Debug)]
pub enum ArchiveError {
    /// A command needs a running Matrix client.
    NotConnected,
    /// A path does not lie under the destination root.
    PathOutsideRoot { path: String, root: String },
    /// A join target is neither a room alias nor a room ID.
    InvalidJoinTarget,
    /// A join target starts like a room ID or alias but the identifier
    /// parser rejects it; `reason` is the parser's own message.
    InvalidRoomReference { reason: String },
    /// A downloaded file has no content.
    EmptyFile,
    /// A downloaded image could not be decoded.
    UndecodableImage,
    /// A stored timestamp is not RFC 3339.
    InvalidTimestamp { value: String },
    /// The queue has handed out every job id.
    QueueFull,
    /// A URL could not be parsed or resolved.
    InvalidUrl { url: String },
    /// The settings name no Matrix user.
    MissingUserId,
    /// The connected client reports no device.
    MissingDeviceId,
    /// The client's own device is unknown, so it cannot be verified.
    NoOwnDevice,
    /// No verification request is active.
    NoVerificationRequest,
    /// The verification request cannot start a SAS verification yet.
    SasNotReady,
    /// No SAS verification is active.
    NoSasVerification,
    /// No verification of any kind is active.
    NoVerificationFlow,
}

pub open spec fn not_connected_text() -> Seq<char> {
    "Matrix client is not connected."@
}

pub open spec fn path_outside_root_text(path: Seq<char>, root: Seq<char>) -> Seq<char> {
    "Path "@ + path + " is not inside root "@ + root
}

pub open spec fn invalid_join_target_text() -> Seq<char> {
    "Room joins require a Matrix room alias (#room:server) or room ID (!id:server)."@
}

pub open spec fn empty_file_text() -> Seq<char> {
    "file is empty"@
}

pub open spec fn undecodable_image_text() -> Seq<char> {
    "Downloaded image could not be decoded"@
}

pub open spec fn queue_full_text() -> Seq<char> {
    "database or disk is full"@
}

pub open spec fn invalid_url_text(url: Seq<char>) -> Seq<char> {
    "Invalid URL: "@ + url
}

pub open spec fn missing_user_id_text() -> Seq<char> {
    "Connected Matrix client has no configured user id"@
}

pub open spec fn missing_device_id_text() -> Seq<char> {
    "Connected Matrix client has no device id"@
}

pub open spec fn no_own_device_text() -> Seq<char> {
    "Unable to find the current device for verification"@
}

pub open spec fn no_verification_request_text() -> Seq<char> {
    "No verification request is active."@
}

pub open spec fn sas_not_ready_text() -> Seq<char> {
    "Verification request is not ready for SAS yet."@
}

pub open spec fn no_sas_verification_text() -> Seq<char> {
    "No SAS verification is active."@
}

pub open spec fn no_verification_flow_text() -> Seq<char> {
    "No verification flow is active."@
}

pub open spec fn invalid_timestamp_text(value: Seq<char>) -> Seq<char> {
    "Invalid timestamp: "@ + value
}

impl ArchiveError {
    pub open spec fn message_text(&self) -> Seq<char> {
        match self {
            ArchiveError::NotConnected => not_connected_text(),
            ArchiveError::PathOutsideRoot { path, root } => path_outside_root_text(path@, root@),
            ArchiveError::InvalidJoinTarget => invalid_join_target_text(),
            ArchiveError::InvalidRoomReference { reason } => reason@,
            ArchiveError::EmptyFile => empty_file_text(),
            ArchiveError::UndecodableImage => undecodable_image_text(),
            ArchiveError::InvalidTimestamp { value } => invalid_timestamp_text(value@),
            ArchiveError::QueueFull => queue_full_text(),
            ArchiveError::InvalidUrl { url } => invalid_url_text(url@),
            ArchiveError::MissingUserId => missing_user_id_text(),
            ArchiveError::MissingDeviceId => missing_device_id_text(),
            ArchiveError::NoOwnDevice => no_own_device_text(),
            ArchiveError::NoVerificationRequest => no_verification_request_text(),
            ArchiveError::SasNotReady => sas_not_ready_text(),
            ArchiveError::NoSasVerification => no_sas_verification_text(),
            ArchiveError::NoVerificationFlow => no_verification_flow_text(),
        }
    }

    /// The text shown to the user for this error.
    pub fn message(&self) -> (r: String)
        ensures
            r@ == self.message_text(),
    {
        let mut r = String::new();
        match self {
            ArchiveError::NotConnected => {
                push_str(&mut r, "Matrix client is not connected.");
            },
            ArchiveError::PathOutsideRoot { path, root } => {
                push_str(&mut r, "Path ");
                push_str(&mut r, path.as_str());
                push_str(&mut r, " is not inside root ");
                push_str(&mut r, root.as_str());
            },
            ArchiveError::InvalidJoinTarget => {
                push_str(
                    &mut r,
                    "Room joins require a Matrix room alias (#room:server) or room ID (!id:server).",
                );
            },
            ArchiveError::InvalidRoomReference { reason } => {
                push_str(&mut r, reason.as_str());
            },
            ArchiveError::EmptyFile => {
                push_str(&mut r, "file is empty");
            },
            ArchiveError::UndecodableImage => {
                push_str(&mut r, "Downloaded image could not be decoded");
            },
            ArchiveError::InvalidTimestamp { value } => {
                push_str(&mut r, "Invalid timestamp: ");
                push_str(&mut r, value.as_str());
            },
            ArchiveError::QueueFull => {
                push_str(&mut r, "database or disk is full");
            },
            ArchiveError::InvalidUrl { url } => {
                push_str(&mut r, "Invalid URL: ");
                push_str(&mut r, url.as_str());
            },
            ArchiveError::MissingUserId => {
                push_str(&mut r, "Connected Matrix client has no configured user id");
            },
            ArchiveError::MissingDeviceId => {
                push_str(&mut r, "Connected Matrix client has no device id");
            },
            ArchiveError::NoOwnDevice => {
                push_str(&mut r, "Unable to find the current device for verification");
            },
            ArchiveError::NoVerificationRequest => {
                push_str(&mut r, "No verification request is active.");
            },
            ArchiveError::SasNotReady => {
                push_str(&mut r, "Verification request is not ready for SAS yet.");
            },
            ArchiveError::NoSasVerification => {
                push_str(&mut r, "No SAS verification is active.");
            },
            ArchiveError::NoVerificationFlow => {
                push_str(&mut r, "No verification flow is active.");
            },
        }
        proof {
            assert(r@ =~= self.message_text());
        }
        r
    }
}

} // verus!
