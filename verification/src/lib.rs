//! Pencil-and-paper cryptography, verified: the Solitaire card cipher and a
//! Blum-Blum-Shub bit generator.

pub mod bbs;
pub mod solitaire;
pub mod strings;
