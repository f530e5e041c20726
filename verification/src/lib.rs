//! Finding the first space-delimited token of a text buffer.
//!
//! A token ends at the first ASCII space byte of the buffer, or at the end of
//! the buffer where it holds no space. The scanner hands out a [`TextView`]:
//! a half-open byte range that borrows the buffer it was cut from, so that
//! the buffer cannot change while the view is in use.

pub mod encoding;
pub mod model;
pub mod scanner;
pub mod text_view;

pub use scanner::{better_first_word, first_token, first_word};
pub use text_view::TextView;
