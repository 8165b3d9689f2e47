//! Random passwords drawn from selectable character classes.
//!
//! [`charset`] holds the pools of characters, [`password`] the generator,
//! [`batch`] the numbering and layout of several passwords, and
//! [`selection`], [`util`] and [`text`] the reading of what the user typed.

pub mod batch;
pub mod charset;
pub mod password;
pub mod selection;
pub mod text;
pub mod util;
