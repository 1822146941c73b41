//! A small calculator for arithmetic and bitwise expressions over 32-bit
//! machine words.
//!
//! An expression is scanned into tokens, parsed by recursive descent into a
//! tree, evaluated with wraparound arithmetic and finally rendered in a chosen
//! base, bit width and signedness.  Every stage is an ordinary function whose
//! result is pinned down by a specification function over sequences of
//! characters and tokens.

pub mod config;
pub mod eval;
pub mod formatter;
pub mod laws;
pub mod listing;
pub mod parse;
pub mod pipeline;
pub mod scan;
pub mod text;
