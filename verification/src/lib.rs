//! Enumeration of the primes below a bound: their count, their sum and the
//! ten largest of them, for a pool of workers that draw candidates from one
//! shared cursor and for a single-threaded baseline.

pub mod primality;
pub mod primes;
pub mod cursor;
pub mod accumulator;
pub mod pool;
pub mod sequential;
pub mod agreement;
pub mod interleaving;
