//! Rule engine for book sources: selector and rule parsing, URL compilation,
//! variable scopes, page crawling decisions and session state.

pub mod crawler;
pub mod eval;
pub mod eval_laws;
pub mod executor;
pub mod ext;
pub mod model;
pub mod parser;
pub mod util;
