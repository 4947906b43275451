//! A cursor over an owned, growable byte buffer: sequential decoding and
//! appending of fixed-width integers in big-endian and little-endian order.

pub mod byte_order;
pub mod cursor;
pub mod model;
pub mod signed;

pub use cursor::{CursorError, Cursored};
pub use model::CursorView;
