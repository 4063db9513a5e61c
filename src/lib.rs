//! Looks up words on a Chinese dictionary site: scrapes the search results page
//! into records, derives each record's audio address and builds flashcard lines.

pub mod text;
pub mod row;
pub mod decode;
pub mod extract;
pub mod number;
pub mod lookup;
