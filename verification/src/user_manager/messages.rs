//! The messages that a platform user manager handles.
use crate::calendar::Timestamp;
use crate::members::GitHubUser;
use crate::public_keys::PublicKeys;
use crate::store::User;
use std::collections::HashSet;
use vstd::prelude::*;

verus! {

/// Creates a platform user for the given GitHub user without a password.
pub struct CreateUser {
    pub gh_user: GitHubUser,
    pub ids: AccountIds,
}

/// UID and GID of the account that [`CreateUser`] creates.
pub enum AccountIds {
    /// Reuse a rejoining member's IDs. Fail if either is unavailable.
    Stored { uid: u32, gid: Option<u32> },
    /// Allocate fresh IDs without taking IDs retained for departed members.
    Fresh { reserved_uids: HashSet<u32>, reserved_gids: HashSet<u32> },
}

/// The IDs of an account as contracts see them.
pub enum IdsView {
    Stored { uid: u32, gid: Option<u32> },
    Fresh { reserved_uids: Set<u32>, reserved_gids: Set<u32> },
}

impl View for AccountIds {
    type V = IdsView;

    open spec fn view(&self) -> IdsView {
        match self {
            AccountIds::Stored { uid, gid } => IdsView::Stored { uid: *uid, gid: *gid },
            AccountIds::Fresh { reserved_uids, reserved_gids } => IdsView::Fresh {
                reserved_uids: reserved_uids@,
                reserved_gids: reserved_gids@,
            },
        }
    }
}

/// Reconcile a stored platform account with the current GitHub user.
///
/// This re-creates the account with the stored name, UID and GID first when the user no longer
/// exists on the system. Refuses when the stored UID or name belongs to a different account.
pub struct UpdateUser {
    pub gh_user: GitHubUser,
    pub available_user: User,
}

/// Reversibly disable a departed member's account and remove its active access.
///
/// Verifies that the stored user matches the platform account, sets its shadow expiry, removes
/// authorized keys and scheduled work, ends sessions and processes, and removes supplementary
/// groups. The account and home directory remain and can be restored later.
pub struct DisableAccount {
    pub user: User,
}

/// Permanently delete a departed member's account and home directory once its shadow expiry is
/// old enough.
pub struct PurgeAccount {
    pub user: User,
    /// Delete the account if its shadow expiry is on or before this timestamp.
    pub disabled_before: Timestamp,
}

/// Result of checking and applying a [`PurgeAccount`] operation.
#[derive(Debug, Clone, Copy, PartialEq, Eq, Structural)]
pub enum PurgeOutcome {
    /// The account and home directory were permanently deleted.
    Deleted,
    /// No matching account exists.
    NoAccount,
    /// The account is not disabled, or was disabled after the cutoff.
    NotDisabledLongEnough,
}

/// Replace a user's supplementary groups, excluding their primary group.
///
/// All supplementary groups of synced users are managed. Any group not in the given list is
/// removed from the user.
pub struct SyncSupplementaryGroups {
    pub user: User,
    pub groups: Vec<String>,
}

/// Ensures that all given groups exist on the system, creating any that are missing.
pub struct EnsureGroupsExist {
    pub groups: Vec<String>,
}

/// Replace the managed authorized_keys block with the current public keys of the given user.
pub struct UpdateAuthorizedKeys {
    pub user: User,
    pub keys: PublicKeys,
}

} // verus!
