//! Numeric and cryptographic primitives with verified contracts: widening
//! carry/borrow arithmetic for composing multi-limb ("big number")
//! operations, rounded integer division for every fixed width, and a
//! bit-exact AES-128 block cipher over an expanded 11-round key schedule.

pub mod aes;
pub mod block;
pub mod primitive;

pub use aes::Aes;
pub use block::Block;
pub use primitive::Bits;
pub use primitive::RoundedDiv;
pub use primitive::Widening;
pub use primitive::div_ceil;
