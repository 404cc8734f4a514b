//! The verified core of LinuxSCP, a graphical SFTP client: paths, listings,
//! saved sites, ssh configuration, the connection bootstrap and the transfer
//! queue, each as plain data with contracts over mathematical models.

pub mod copying;
pub mod fsops;
pub mod jobs;
pub mod paths;
pub mod scanning;
pub mod secrets;
pub mod sessions;
pub mod settings;
pub mod sizes;
pub mod ssh;
pub mod text;
pub mod transfers;
pub mod tree;
pub mod tree_laws;
pub mod types;
pub mod ui;
pub mod walks;
