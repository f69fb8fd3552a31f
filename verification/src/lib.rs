//! Reading of shared Daily Akari results: line shapes, the time codec, the
//! date check and the parser that turns a shared text into a score.

pub mod date;
pub mod errors;
pub mod glyphs;
pub mod line;
pub mod models;
pub mod parser;
pub mod storage;
pub mod text;
pub mod time;
