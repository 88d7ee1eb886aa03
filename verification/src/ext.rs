//! The calls into outside crates, each behind one function whose contract says
//! what is relied on.

pub mod codec;
pub mod cookies;
pub mod crypto;
pub mod dom;
pub mod headers;
pub mod json;
pub mod regexes;
pub mod time;
pub mod urls;
pub mod xml;
