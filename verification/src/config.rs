//! Server settings.
use vstd::prelude::*;

verus! {

/// Self-hosted memo/note server — a single-binary Memos clone.
pub struct Config {
    /// Address to bind to
    pub bind: String,
    /// Port to listen on
    pub port: u16,
    /// Path to the SQLite database file (created if missing)
    pub db_path: String,
    /// Maximum upload size in MiB
    pub max_upload_mb: usize,
    /// Set the Secure attribute on session cookies (enable when serving over HTTPS)
    pub secure_cookies: bool,
}

} // verus!
