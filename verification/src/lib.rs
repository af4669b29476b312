//! Resolution engine for scripture references: parsing a loosely formatted
//! reference string, fuzzy-matching a possibly misspelled book name against a
//! corpus of books with aliases, extracting a verse range from the chosen
//! book, and formatting the result as a text block.

pub mod errors;
pub mod corpus;
pub mod similarity;
pub mod parser;
pub mod resolver;
pub mod extractor;
pub mod formatter;
pub mod pipeline;
