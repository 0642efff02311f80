//! Generation and probabilistic checking of primes and safe primes.

pub mod bignat;
pub mod error;
pub mod random;
pub mod small_primes;
pub mod probable;
pub mod lucas;
pub mod search;
pub mod prime;
pub mod safe_prime;
pub mod sequences;
