//! Names for bulk renames: a template is expanded into a new base name, and
//! a name that is already taken gives way to one with an index.
//!
//! - [`template`] finds the `${kind:argument}` placeholders of a template,
//!   [`directive`] reads what each asks for, and [`expand`] puts the text
//!   asked for in its place: the local time ([`clock`]) or random letters and
//!   digits ([`random`]).
//! - [`search`] decides which index to try next when a name is taken,
//!   [`resolve`] runs that search against whoever knows the directory, and
//!   [`rename`] decides what becomes of one entry.
//! - [`number`] and [`text`] read and write numerals and characters.

pub mod clock;
pub mod directive;
pub mod expand;
pub mod number;
pub mod random;
pub mod rename;
pub mod resolve;
pub mod search;
pub mod template;
pub mod text;
