//! Device verification: which step a verification command takes, given the
//! flows in progress, and the snapshot shown to the user.

use vstd::prelude::*;
use crate::domain::{VerificationEmoji, VerificationSnapshot, VerificationStatus};
use crate::error::ArchiveError;

verus! {

/// What declining a verification does.
#[derive(Clone, Copy, Debug, PartialEq, Eq, Structural)]
pub enum DeclineStep {
    /// Report that the short authentication strings do not match.
    Mismatch,
    /// Cancel the pending request.
    Cancel,
}

/// Declining answers the SAS flow when there is one, else cancels the
/// request; with neither, there is nothing to decline.
pub fn decline_step(has_sas: bool, has_request: bool) -> (r: Result<DeclineStep, ArchiveError>)
    ensures
        has_sas ==> r == Ok::<DeclineStep, ArchiveError>(DeclineStep::Mismatch),
        !has_sas && has_request ==> r == Ok::<DeclineStep, ArchiveError>(DeclineStep::Cancel),
        !has_sas && !has_request ==> r matches Err(ArchiveError::NoVerificationFlow),
{
    if has_sas {
        Ok(DeclineStep::Mismatch)
    } else if has_request {
        Ok(DeclineStep::Cancel)
    } else {
        Err(ArchiveError::NoVerificationFlow)
    }
}

/// Approving confirms a SAS verification, which must be active.
pub fn approve_check(has_sas: bool) -> (r: Result<(), ArchiveError>)
    ensures
        has_sas <==> r is Ok,
        !has_sas ==> r matches Err(ArchiveError::NoSasVerification),
{
    if has_sas {
        Ok(())
    } else {
        Err(ArchiveError::NoSasVerification)
    }
}

/// Starting SAS needs an active request that is ready for it.
pub fn sas_start_check(has_request: bool, sas_offered: Option<bool>) -> (r: Result<(), ArchiveError>)
    ensures
        !has_request ==> r matches Err(ArchiveError::NoVerificationRequest),
        has_request && sas_offered == Some(false) ==> r matches Err(ArchiveError::SasNotReady),
        r is Ok <==> has_request && sas_offered != Some(false),
{
    if !has_request {
        return Err(ArchiveError::NoVerificationRequest);
    }
    match sas_offered {
        Some(false) => Err(ArchiveError::SasNotReady),
        _ => Ok(()),
    }
}

/// Requesting a verification needs the client's own device.
pub fn own_device_check(has_own_device: bool) -> (r: Result<(), ArchiveError>)
    ensures
        has_own_device <==> r is Ok,
        !has_own_device ==> r matches Err(ArchiveError::NoOwnDevice),
{
    if has_own_device {
        Ok(())
    } else {
        Err(ArchiveError::NoOwnDevice)
    }
}

/// The verification snapshot: the device's state and ID, and the short
/// authentication strings of an active SAS flow (none without one).
pub fn verification_snapshot(
    state: VerificationStatus,
    device_id: Option<String>,
    emojis: Option<Vec<VerificationEmoji>>,
    decimals: Option<(u16, u16, u16)>,
) -> (r: VerificationSnapshot)
    ensures
        r.state == state,
        r.device_id == device_id,
        emojis matches Some(e) ==> r.emojis@ == e@,
        emojis is None ==> r.emojis@.len() == 0,
        decimals matches Some(d) ==> r.decimals@ == seq![d.0, d.1, d.2],
        decimals is None ==> r.decimals@.len() == 0,
{
    let emojis = match emojis {
        Some(e) => e,
        None => Vec::new(),
    };
    let mut numbers: Vec<u16> = Vec::new();
    if let Some(d) = decimals {
        numbers.push(d.0);
        numbers.push(d.1);
        numbers.push(d.2);
    }
    VerificationSnapshot { state, device_id, emojis, decimals: numbers }
}

} // verus!
