//! Names for the strings and lists that the database deals in.

use vstd::prelude::*;

verus! {

/// A category: its segments from the root down, as in `core.archives.tar`.
pub type Category = Vec<String>;

/// A borrowed category.
pub type CategoryRef<'a> = &'a [String];

/// A pattern that file names are matched against.
pub type FileType = String;

} // verus!
