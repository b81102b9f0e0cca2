//! The plain SSH effector's settings: host, user, and the private-key file
//! to authenticate with. The connection itself and the file transfers are
//! outside work.

use vstd::prelude::*;

verus! {

/// The effector's settings.
pub struct Args {
    /// The host to connect to.
    pub host: String,
    /// The user to connect as.
    pub user: String,
    /// The private-key file to authenticate with.
    pub key_path: String,
}

} // verus!
