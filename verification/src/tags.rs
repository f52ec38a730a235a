//! Tags as they are submitted to the destination.

use vstd::prelude::*;

verus! {

/// A tag.
#[derive(Debug, PartialEq, Eq)]
pub struct TagData {
    pub id: i32,
    pub name: String,
    pub slug: String,
}

} // verus!
