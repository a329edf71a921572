//! Tidies one directory: every loose file goes into the folder of its
//! category, chosen by its extension, and every loose folder into "Folders".
//!
//! This crate holds the decisions and leaves the file system to its caller.
//!
//! - [`standard`] builds the category table and the set of protected folder
//!   names; [`categories`] holds the two collections.
//! - [`names`] finds the extension of a file name.
//! - [`organizer`] decides where an entry goes, counts what was moved, and
//!   writes the lines that frame the report.
//! - [`relocate`] moves one entry, as a dialogue: it asks for one operation
//!   on the file system at a time and decides from the reply how to go on.
//! - [`model`] describes the directory as the tool sees it, and
//!   [`guarantees`] shows on that model what a pass can be relied on for: a
//!   dry run changes nothing and tells what a real run would tell, nothing is
//!   ever overwritten, and a second pass finds nothing to do.

pub mod categories;
pub mod guarantees;
pub mod model;
pub mod names;
pub mod organizer;
pub mod relocate;
pub mod standard;
pub mod text;
