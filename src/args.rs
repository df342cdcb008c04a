//! The character creator's launch options.
use vstd::prelude::*;

verus! {

/// What the character creator is launched with.
pub struct CreatorArgs {
    /// Path to the ark file to read from.
    pub ark_path: String,
    /// The outfit to load first (such as `alterna1`), if one is asked for.
    pub default_outfit: Option<String>,
}

impl CreatorArgs {
    /// The options for an ark path and an optional first outfit, as read
    /// from the command line.
    pub fn init(ark_path: String, default_outfit: Option<String>) -> (r: Self)
        ensures
            r.ark_path@ == ark_path@,
            r.default_outfit == default_outfit,
    {
        CreatorArgs { ark_path, default_outfit }
    }
}

} // verus!
