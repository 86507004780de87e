//! Ribbon filters: a static, space-efficient approximate-membership structure
//! built by banded Gaussian elimination over GF(2).

pub mod algebra;
pub mod builder;
pub mod error;
pub mod filter;
pub mod hashing;
pub mod params;
