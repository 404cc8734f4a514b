//! Talking to the system OpenSSH: its configuration, its password prompts,
//! and the sessions it carries.

pub mod askpass;
pub mod config;
pub mod config_laws;
pub mod connect;
pub mod connect_laws;
