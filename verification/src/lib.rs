//! A growable list of `u32` values that stores every element in the narrowest
//! byte width that holds all of them: 1, 2, 3 or 4 bytes.
//!
//! [`CompactVec`] is used like a `Vec<u32>`. It starts at one byte per element
//! and re-encodes its elements when a value asks for more. In contracts a vector
//! is the sequence of its elements (`cv@`) with a capacity and a width; what the
//! operations make of them is said in [`model`] and [`codec`], and what follows
//! from that for the library as a whole in [`laws`].
pub mod codec;
pub mod laws;
pub mod model;
pub mod std_sort;
pub mod vector;
pub mod width;

pub use crate::vector::iter::{IntoIter, Iter};
pub use crate::vector::CompactVec;
pub use crate::width::BitWidth;
