//! Sequence algebra: small, pure operations over finite ordered sequences.
//!
//! Every operation is one pass over its input slice, or a small fixed number
//! of passes, and builds a fresh result; the input is never changed. Results
//! that hand elements back do so by reference into the input, so no element is
//! ever copied or cloned.
//!
//! Each executable function is specified against a mathematical model on
//! `Seq`; the modules also state, as proof functions, the laws that connect
//! the operations with each other.

pub mod model;
pub mod lookup;
pub mod order;
pub mod parts;
pub mod range;
pub mod repeat;
pub mod runs;

pub use lookup::{find_kth, find_last, find_length, find_next_to_last};
pub use order::{is_palindrome, reverse, rotate};
pub use parts::{drop_nth, insert_at, remove_kth, slice, split};
pub use range::range_of;
pub use repeat::{duplicate, duplicate_times, flatten};
pub use runs::{compress, decode, encode, pack};
