//! The Blum-Blum-Shub generator: bits from repeated squaring modulo the
//! product of two primes.

pub mod generator;
pub mod natural;
pub mod primes;

pub use generator::BbsError;
pub use generator::BBS;
pub use natural::Natural;
