//! What is decided while a peer starts up, before it chats.

use vstd::prelude::*;
use vstd::string::*;

verus! {

/// The name under which the chat is installed on the host.
pub const INSTALLED_APP_ID: &'static str = "my_app_id";

/// The name of the module that holds the chat's operations.
pub const ZOME_NAME: &'static str = "cmdchat";

/// The name of the one operation that other peers may call.
pub const RECEIVER: &'static str = "receive_signal";

/// How a starting peer comes by its identity.
#[derive(Debug, Clone, Copy, PartialEq, Eq, Structural)]
pub enum Setup {
    /// Nothing is installed: make an identity, install and activate.
    Fresh,
    /// There is an installation: go on as the identity of its first cell.
    Existing,
}

/// Decides how to start from the number of cells that the host holds.
pub fn setup_plan(cells: usize) -> (plan: Setup)
    ensures
        plan == if cells == 0 {
            Setup::Fresh
        } else {
            Setup::Existing
        },
{
    if cells == 0 {
        Setup::Fresh
    } else {
        Setup::Existing
    }
}

/// Whether the activation of `app` failed: whether `app` is among the
/// installations whose cells the host could not set up.
pub fn activation_failed(failed: &Vec<String>, app: &str) -> (failure: bool)
    ensures
        failure <==> exists|i: int| 0 <= i < failed.len() && (#[trigger] failed[i])@ == app@,
{
    let mut i: usize = 0;
    while i < failed.len()
        invariant
            i <= failed.len(),
            forall|j: int| 0 <= j < i ==> (#[trigger] failed[j])@ != app@,
        decreases failed.len() - i,
    {
        if same_text(failed[i].as_str(), app) {
            return true;
        }
        i += 1;
    }
    false
}

/// Whether two texts are the same.
pub fn same_text(a: &str, b: &str) -> (same: bool)
    ensures
        same == (a@ == b@),
{
    let left = String::from_str(a);
    let right = String::from_str(b);
    left == right
}

} // verus!
