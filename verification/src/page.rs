use vstd::prelude::*;

verus! {

/// The two recognized page roles: an index-like page that links to items
/// (`Listing`), and an item page that links back to further listings (`Leaf`).
#[derive(Clone, Copy, PartialEq, Eq, Structural, Debug)]
pub enum PageType {
    Listing,
    Leaf,
}

} // verus!
