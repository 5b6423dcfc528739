//! The engine's own assets.

use vstd::prelude::*;
use vstd::string::*;

verus! {

/// The scheme of the engine's own assets.
pub open spec fn scheme() -> Seq<char> {
    "aurora"@
}

/// The asset path of a file in the engine's asset directory.
pub fn aurora_asset(path: &str) -> (r: String)
    ensures
        r@ == scheme() + "://"@ + path@,
{
    let mut r: String = String::from_str("aurora");
    r.append("://");
    r.append(path);
    r
}

} // verus!
