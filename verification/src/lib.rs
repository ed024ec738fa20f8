//! Terms of the HVM language: their representation, substitution, free
//! variables, pretty printing and parsing, the definition book, its
//! checks, and the readback of interaction nets into terms.
pub mod collections;
pub mod net;
pub mod term;
