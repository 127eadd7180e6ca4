use vstd::prelude::*;

verus! {

/// The token-format generation a builder is tagged with.  The tag carries no
/// data; it only selects the codec a `build` call hands off to.
pub struct V2;

/// The purpose tag for tokens sealed with a shared (symmetric) key.
pub struct Local;

} // verus!
