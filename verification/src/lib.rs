//! Fixed-capacity sets of bit flags addressed by integer index.
//!
//! A set is backed by a sequence of 64-bit words.  Index `i` lives in
//! word `i / 64` at offset `i % 64`; indices at or beyond the capacity
//! are never present.  Three capability traits split the operations by
//! access mode: [`BitSet`] for reading, [`BitSetMut`] for mutating a
//! growable backing vector that makes room on demand, and
//! [`SharedBitSet`] for mutating a fixed-size set that reports
//! out-of-range indices instead.  [`AtomicBitSet`] adds a next-free-bit
//! allocator with a rotating scan cursor that spreads successive claims
//! over the words.

pub mod atomic_bitset;
pub mod bitset;
pub mod bitset_mut;
pub mod shared_bitset;
pub mod slot_count;
pub mod utils;
pub mod word;

pub use atomic_bitset::AtomicBitSet;
pub use bitset::BitSet;
pub use bitset_mut::BitSetMut;
pub use shared_bitset::SharedBitSet;
