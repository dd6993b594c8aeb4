//! Verified core of a self-guided dictation tool.
pub mod dictation;
pub mod gen;
pub mod language;
pub mod speaker;
pub mod text;
pub mod word_list;
