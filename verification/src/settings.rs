//! The persisted shell settings.
use vstd::prelude::*;

verus! {

/// Profile the shell wires plugins into (the kernel's web surface).
pub const DEFAULT_PROFILE: &'static str = "web";

/// Loopback port the kernel serves on unless configured otherwise.
pub const DEFAULT_PORT: u16 = 3090;

/// `settings.json`: explicit tool paths, the kernel port and the profile.
#[derive(Debug, Clone)]
pub struct Settings {
    pub node_path: Option<String>,
    pub pnpm_path: Option<String>,
    pub port: u16,
    pub profile: String,
}

impl Default for Settings {
    fn default() -> (s: Self)
        ensures
            s.node_path is None,
            s.pnpm_path is None,
            s.port == DEFAULT_PORT,
            s.profile@ == DEFAULT_PROFILE@,
    {
        Settings {
            node_path: None,
            pnpm_path: None,
            port: DEFAULT_PORT,
            profile: String::from_str(DEFAULT_PROFILE),
        }
    }
}

} // verus!
