use vstd::prelude::*;

pub mod seq;
pub mod tcp;
pub mod manager;
pub mod codec;

verus! {

} // verus!
