//! A standard Bloom filter: a space-efficient, probabilistic set-membership
//! structure. Queries may report a false positive, but never a false
//! negative: once an item has been inserted, every later membership test for
//! it answers `true` until the filter is cleared.
//!
//! The filter owns a fixed-length bit array and derives, per operation, `k`
//! probe positions from two seeded base hashes (enhanced double hashing).
//! Sizing (`m` bits, `k` probe rounds) is computed once at construction from
//! the expected item count and the target false-positive rate, given as an
//! exact rational.

pub mod bits;
pub mod filter;
pub mod hashing;
pub mod laws;
pub mod params;

pub use filter::get_index;
pub use filter::StandardBloomFilter;
pub use hashing::BloomHashable;
pub use params::BloomError;
pub use params::FpRate;
