pub mod field;
pub mod hypercube;
pub mod sumcheck_utils;
pub mod multilinear;
pub mod transcript;
pub mod sumcheck;
pub mod univariate;
pub mod composed;
pub mod composed_sumcheck;
pub mod shamir;
pub mod circuit;
