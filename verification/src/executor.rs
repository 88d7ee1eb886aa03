//! The operations on a source: what is asked of it, and the answer in JSON.

pub mod answer_laws;
pub mod content_laws;
pub mod login;
pub mod login_laws;
pub mod pages;
pub mod request;
pub mod run;
pub mod toc_laws;
pub mod values;
