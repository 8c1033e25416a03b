pub mod text;
pub mod tags;
pub mod duration;
pub mod config;
pub mod qbit_api;
pub mod processes;
