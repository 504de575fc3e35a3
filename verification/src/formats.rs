//! The archives in which games keep their sound banks.

pub mod bhd5;
pub mod bnd4;
pub mod dcx;
