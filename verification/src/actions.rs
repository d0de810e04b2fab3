//! Keyboard actions of the Redis and Git views. The UI layer registers them
//! with its action system; here they are plain marker values.

use vstd::prelude::*;

verus! {

/// Reload the Redis key tree (a new SCAN from cursor 0).
#[derive(Debug, Clone, Copy, PartialEq, Eq, Structural)]
pub struct RefreshKeyTree;

/// Delete the selected Redis key (after a confirmation).
#[derive(Debug, Clone, Copy, PartialEq, Eq, Structural)]
pub struct DeleteCurrentKey;

/// Switch to the changes view and focus the commit message.
#[derive(Debug, Clone, Copy, PartialEq, Eq, Structural)]
pub struct FocusCommitMessage;

/// Commit the staged changes.
#[derive(Debug, Clone, Copy, PartialEq, Eq, Structural)]
pub struct CommitNow;

/// Push the current branch.
#[derive(Debug, Clone, Copy, PartialEq, Eq, Structural)]
pub struct PushNow;

/// Pull the current branch.
#[derive(Debug, Clone, Copy, PartialEq, Eq, Structural)]
pub struct PullNow;

/// Refresh the working-tree status.
#[derive(Debug, Clone, Copy, PartialEq, Eq, Structural)]
pub struct RefreshWorkspace;

/// Show or hide the history pane.
#[derive(Debug, Clone, Copy, PartialEq, Eq, Structural)]
pub struct ToggleHistoryPane;

} // verus!
