//! Requests: how they are written in rules, what is sent, and what comes back.

pub mod address_laws;
pub mod cookies;
pub mod exchange_laws;
pub mod fetch;
pub mod http;
pub mod request_laws;
pub mod response;
pub mod session;
pub mod session_cache;
pub mod sessions;
pub mod url_rule;
