//! What holds of the library as a whole, proved from what its functions state.
pub mod access;
pub mod growth;
pub mod order;
pub mod packing;
