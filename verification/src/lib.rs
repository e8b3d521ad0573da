//! The field agent's rules: cutting a recording into overlapping clips,
//! queueing and pacing uploads, watching the disk, dating every frame.

pub mod texte;
pub mod recorder;
pub mod horloge;
pub mod chrono_simple;
pub mod assembler;
pub mod video_queue;
pub mod uploader;
pub mod video_uploader;
pub mod capture;
pub mod disk;
pub mod frames;
pub mod manifest;
pub mod watcher;
pub mod auth;
pub mod database;
pub mod commands;
