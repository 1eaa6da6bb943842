//! A calendar for the desktop, read from Outlook Web Access.
//!
//! The library holds what the calendar decides and computes; it does not itself talk to a server,
//! read a clock or show anything.
//!
//! - `config`, `types`: the settings and the server's data.
//! - `login`, `ntlm`, `session`: how to log in, and what a session consists of.
//! - `requests`, `fetch`: what to ask the server, in which order, and what its replies say.
//! - `schedule`, `notice`: when to notify, and what notifications say.
//! - `board`, `feed`: what the screen shows.
//! - `moment`, `encode`, `json`, `http`, `text`: what these are built from.
pub mod board;
pub mod config;
pub mod encode;
pub mod feed;
pub mod fetch;
pub mod http;
pub mod json;
pub mod login;
pub mod moment;
pub mod notice;
pub mod ntlm;
pub mod requests;
pub mod schedule;
pub mod session;
pub mod text;
pub mod types;

pub use crate::notice::extract_url;
pub use crate::session::OwaSession;
