//! Verified core of a small Sanskrit text-analysis toolkit.
//!
//! The heart of the crate is [`sandhi`], a rule-driven splitter that
//! enumerates the ways a span of text can be cut into two words once
//! phonological fusion (sandhi) is undone, together with phonotactic
//! filters over the candidates.

pub mod counts;
pub mod sandhi;
pub mod states;
pub mod text;
pub mod translit;
