//! Text for diagnostics, written into caller-owned byte buffers of fixed
//! size: no allocation, no failure, and an exact count of what was written.
//!
//! Every value that has a text implements [`ToText`]. Its `to_text` writes
//! as much of the text as the buffer holds and returns how many bytes that
//! was; [`compose`] writes the texts of several values one behind the
//! other. What each call leaves in the buffer is stated over the functions
//! of [`model`].

pub mod model;
pub mod cursor;
pub mod traits;
pub mod decimal;
pub mod address;
pub mod boolean;
pub mod character;
pub mod bytes;
pub mod option;
pub mod value;
pub mod compose;
pub mod laws;

pub use crate::address::Address;
pub use crate::compose::compose;
pub use crate::traits::{append, ToText};
pub use crate::value::Value;
