use vstd::prelude::*;

verus! {

/// Identifier given to assets that are built at run time rather than loaded.
pub const RUNTIME_ASSET: &'static str = "runtime";

} // verus!
