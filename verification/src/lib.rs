//! Locating a compiled bytecode artifact buried at arbitrary depth inside
//! nested container archives, and the decisions of deploying it to a running
//! remote process: fragment derivation, the recursive member search, upload
//! byte accounting, the session life cycle, and live-patch command
//! composition. The caller supplies the filesystem and network transport and
//! feeds their outcomes back in as plain values.

pub mod common_service;
pub mod confit_utils;
pub mod hot_swap;
pub mod jar_utils;
pub mod ssh_utils;
pub mod text;

use vstd::prelude::*;

verus! {

/// The failure kinds that any operation of this crate can surface.
#[derive(Clone, Copy, Debug, PartialEq, Eq, Structural)]
pub enum HotSwapError {
    /// A member carried the container suffix but could not be opened as one.
    ContainerFormatError,
    /// A local read or write failed.
    IoError,
    /// The transport to the remote host could not be established.
    ConnectionError,
    /// The remote host rejected the supplied credentials.
    AuthenticationError,
    /// An operation was attempted on a session that already failed.
    SessionClosedError,
    /// An upload finished with fewer bytes written than the source holds.
    TransferIncompleteError,
    /// No archive member matched the derived fragment.
    ArtifactNotFoundError,
}

} // verus!
