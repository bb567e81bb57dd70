//! A stateful repeating-key XOR transform.
//!
//! [`Xorcism`] walks a key round and round and XORs each byte it is given with the
//! key byte under its cursor. [`Keystream`] is the mathematical model of that walk,
//! and the laws proved about it are what every contract in this crate is stated over.

pub mod cipher;
pub mod keystream;
pub mod stream;

pub use cipher::Xorcism;
pub use keystream::Keystream;
pub use stream::{Reader, Writer};
