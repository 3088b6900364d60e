use vstd::prelude::*;

pub mod ast;
pub mod event;
pub mod interpret;
pub mod memory;
pub mod password;
pub mod step_laws;
pub mod tcp;
pub mod trie;
pub mod vec_ops;

verus! {

} // verus!
