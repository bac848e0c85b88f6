//! Detection pipeline for pre-execution / pre-paste safety analysis: it
//! inspects text that is about to be typed, pasted, or executed and produces
//! structured evidence of deception or danger, such as homoglyph domain
//! spoofing, obfuscated shell syntax, suspicious extracted artifacts, and
//! hidden or control characters.

pub mod text;
pub mod verdict;
pub mod homoglyph;
pub mod normalize;
pub mod tokenize;
pub mod parse;
pub mod extract;
pub mod wire;
