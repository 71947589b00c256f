//! The state that the server keeps while it runs.

pub mod app_state;
