//! A small JSON-like dialect, read from a buffer of characters into a tree of
//! values.
//!
//! The crate has two layers. [`cursor::Input`] is a forward-only scanner over
//! an owned sequence of characters; [`parser`] puts the recursive-descent rules
//! of the dialect on top of it. What each rule accepts, what it yields and how
//! far it moves the cursor is defined once, as mathematics, in [`grammar`];
//! the executable code is proved against that definition. [`theorems`] and
//! [`spacing`] prove what follows from the definition for every input.
//!
//! The dialect is deliberately narrow: numbers are unsigned runs of digits
//! that fit `usize`, strings carry no escapes and cannot be empty, and object
//! keys are alphanumeric. A value is read or it is not: there is no error
//! beyond that, and a rule that has read its opening token is not taken back.
//!
//! ```text
//! let mut input = Input::new("[1, 2]".chars().collect());
//! let value = input.next();
//! ```

pub mod chars;
pub mod cursor;
pub mod grammar;
pub mod parser;
pub mod spacing;
pub mod theorems;
pub mod value;

pub use cursor::Input;
pub use value::{Json, JsonMap, JsonValue};
