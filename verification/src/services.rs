pub mod game_engine;
pub mod scoring;
pub mod session_manager;
