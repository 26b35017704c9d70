//! Replay buffer, clip editing and capture bookkeeping of a game clipping tool.
pub mod audio;
pub mod buffer;
pub mod capture;
pub mod config;
pub mod control;
pub mod convert;
pub mod edit;
pub mod encode;
pub mod export;
pub mod filing;
pub mod format;
pub mod game;
pub mod gpu;
pub mod hotkeys;
pub mod mft;
pub mod model;
pub mod profile;
pub mod text;
pub mod ui;
