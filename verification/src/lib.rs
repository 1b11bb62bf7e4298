//! A security log-processing backend: uploaded lines are cut into batches,
//! normalized into events, stored under the hash of their content, and held
//! against detection rules that raise alerts; stored events are searched
//! with a small query language.
//!
//! Every function of the library carries a contract that Verus proves of its
//! body. Calls into other crates are few and stand in small functions whose
//! contracts are believed, not proved: `text` (character classes and
//! `String::push`), `json` (`serde_json`), `pattern` (`regex`), `dates`
//! (`chrono`), `log` (`sha2`), `stamp` (`uuid`, `chrono`), `account`
//! (`argon2`) and `csrf` (`csrf`, `rand`, `base64`).

pub mod account;
pub mod agent;
pub mod alert;
pub mod auth;
pub mod auth_session;
pub mod batch_maker;
pub mod case_comments;
pub mod cases;
pub mod collector;
pub mod csrf;
pub mod dates;
pub mod eql;
pub mod eql_text;
pub mod extensions;
pub mod handlers;
pub mod host;
pub mod json;
pub mod log;
pub mod log_parser;
pub mod message_queue;
pub mod pattern;
pub mod rules;
pub mod stamp;
pub mod text;
