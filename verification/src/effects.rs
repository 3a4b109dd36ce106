//! Built-in GPU effects.

use vstd::prelude::*;
use crate::render::info;

verus! {

/// Number of built-in effects currently registered: none yet.
pub fn builtin_count() -> (n: usize)
    ensures
        n == 0,
{
    let _render = info();
    0
}

} // verus!
