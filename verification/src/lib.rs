//! Discovery of frequent fixed-length words in unsegmented text.
//!
//! A first scan counts every run of `word_length` valid characters; a second
//! scan picks, span by span, the combination that the first scan saw most
//! often and counts it as a word.
pub mod model;
pub mod table;
pub mod text;
pub mod validity;
pub mod window;
pub mod counter;
pub mod selector;
pub mod order;
pub mod report;
pub mod corpus;
pub mod laws;
