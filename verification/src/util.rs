//! Text helpers shared by the parsers and the crawler.

pub mod chars;
pub mod text;
pub mod address;
pub mod bytes;
