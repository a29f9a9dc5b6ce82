//! Entry points of the commands that act on an existing network.

use vstd::prelude::*;

verus! {

/// Command to connect to an existing network. Connecting is not available yet:
/// the command returns at once and changes nothing.
pub fn command_connect() {
}

/// Command to watch a connected network. Monitoring is not available yet:
/// the command returns at once and changes nothing.
pub fn command_monitor() {
}

} // verus!
