//! Server configuration values.

use vstd::prelude::*;

verus! {

/// Runtime configuration.  Loading values from the environment happens
/// outside the library; the library only consumes the resulting record.
#[derive(Debug, Clone)]
pub struct AppConfig {
    pub port: u16,
    pub max_sessions: usize,
    pub max_players: usize,
    pub question_time_sec: u64,
    pub reconnect_timeout_sec: u64,
    pub static_dir: Option<String>,
}

impl AppConfig {
    /// The documented default for every configuration knob.
    pub fn defaults() -> (c: AppConfig)
        ensures
            c.port == 3000,
            c.max_sessions == 10,
            c.max_players == 50,
            c.question_time_sec == 20,
            c.reconnect_timeout_sec == 120,
            c.static_dir is None,
    {
        AppConfig {
            port: 3000,
            max_sessions: 10,
            max_players: 50,
            question_time_sec: 20,
            reconnect_timeout_sec: 120,
            static_dir: None,
        }
    }
}

} // verus!
