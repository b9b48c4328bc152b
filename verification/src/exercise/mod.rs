//! The library checked against itself
//!
//! Each function here does the same thing in two ways that this library
//! offers, and answers whether the two ways agreed. They always do: that is
//! what the contracts of these functions say, and what makes them worth
//! running against anything that is meant to behave like this library.

pub mod bmpvec;
pub mod dnsname;
pub mod triebits;
