//! Port-knocking for SSH: the client-side planning of knock sequences and the
//! daemon-side recognition of them, with their contracts.

pub mod text;
pub mod knock_table;
pub mod decimal;
pub mod sshd;
pub mod config;
pub mod seqtext;
pub mod ttl;
pub mod ssh_client;
pub mod firewall;
pub mod packet;
pub mod knock;
