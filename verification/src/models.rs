pub mod leaderboard;
pub mod player;
pub mod quiz;
pub mod scoring_rule;
pub mod session;
