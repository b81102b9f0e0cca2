//! The copy-over-SSH effector's settings: where to connect, how to
//! authenticate, and under which remote directory the managed paths live.
//! The connection and the transfers are outside work; what is verified here
//! is the authentication rule — exactly one of a key file and the agent —
//! and the remote path resolution.

use vstd::prelude::*;
use vstd::string::StringExecFns;

use crate::config::spec_join_dir;
use crate::config::join_dir;

verus! {

/// The effector's settings, as parsed from its command arguments.
pub struct Args {
    /// The host to connect to.
    pub host: String,
    /// The user to connect as.
    pub user: String,
    /// A private-key file to authenticate with.
    pub key_path: Option<String>,
    /// Whether to authenticate through the SSH agent.
    pub key_agent: bool,
    /// The remote directory managed paths are resolved under.
    pub base_dir: Option<String>,
}

/// How the connection authenticates.
pub enum KeySelection {
    /// With the private key stored at the carried path.
    KeyFile(String),
    /// Through the SSH agent.
    Agent,
}

/// The authentication the settings call for: exactly one of `key_path` and
/// `key_agent` must be given; none or both is a configuration error.
pub fn key_selection(args: &Args) -> (r: Result<KeySelection, String>)
    ensures
        match r {
            Ok(KeySelection::KeyFile(p)) => !args.key_agent && (args.key_path matches Some(kp)
                && p@ == kp@),
            Ok(KeySelection::Agent) => args.key_agent && args.key_path is None,
            Err(_) => (args.key_agent && args.key_path is Some) || (!args.key_agent
                && args.key_path is None),
        },
{
    match (&args.key_agent, &args.key_path) {
        (false, Some(p)) => Ok(KeySelection::KeyFile(p.clone())),
        (true, None) => Ok(KeySelection::Agent),
        _ => Err(String::from_str("exactly one of a key path and the key agent is required")),
    }
}

/// Where a managed path lives on the remote side: under the base directory
/// when one is set, at the path itself otherwise.
pub fn based(base_dir: &Option<String>, path: &str) -> (r: String)
    ensures
        match base_dir {
            None => r@ == path@,
            Some(d) => r@ == spec_join_dir(d@, path@),
        },
{
    match base_dir {
        None => String::from_str(path),
        Some(d) => join_dir(d.as_str(), path),
    }
}

} // verus!
