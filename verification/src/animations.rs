//! How an animation runs over its time.

use vstd::prelude::*;

verus! {

#[derive(Clone, Copy, Debug, PartialEq, Eq, Structural)]
pub enum Timing {
    Linear,
    EaseInOut,
}

} // verus!
