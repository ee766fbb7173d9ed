//! Kernels for loading CPU cores: their numeric rules and work partitioning.

pub mod fermat;
pub mod lucas_lehmer;
pub mod mandelbrot;
pub mod natural;
pub mod primes;
pub mod rsa;
pub mod strategy;
