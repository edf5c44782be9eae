//! Verified core of the Matrix media archiver backend: settings, history-scan
//! bookkeeping, the download queue, space reconciliation and the text rules
//! that the service applies to Matrix identifiers, URLs and storage paths.

pub mod catalog;
pub mod clock;
pub mod commands;
pub mod domain;
pub mod error;
pub mod events;
pub mod history;
pub mod identity;
pub mod media;
pub mod paths;
pub mod pipeline;
pub mod protocol;
pub mod queue;
pub mod rooms;
pub mod runtime;
pub mod settings;
pub mod spaces;
pub mod store;
pub mod text;
pub mod verification;
