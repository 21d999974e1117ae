//! Kinds of blocks that a program's blocks are resolved against, by name.
use vstd::prelude::*;
use std::sync::Arc;

use crate::psycho_parser::chars_eq;
use crate::text::chars_of;

verus! {

/// A kind of block: its name and when its blocks run (1 first, 2 second and so on; 0
/// never).
#[derive(Debug)]
pub struct BlockType {
    pub name: String,
    pub execution_order: usize,
}

/// The first kind of block named `name` among `types`.
pub open spec fn first_type_named(types: Seq<Arc<BlockType>>, name: Seq<char>) -> Option<int> {
    crate::scan::first_index(types.len() as int, |i: int| types[i].name@ == name)
}

/// Finds the kind of block a block's name resolves to, the first one of that name.
pub fn find_block_type(types: &Vec<Arc<BlockType>>, name: &str) -> (r: Option<Arc<BlockType>>)
    ensures
        match first_type_named(types@, name@) {
            Some(i) => r matches Some(t) && t == types@[i],
            None => r is None,
        },
{
    let wanted = chars_of(name);
    let ghost p = |i: int| types@[i].name@ == name@;
    let mut i: usize = 0;
    while i < types.len()
        invariant
            i <= types@.len(),
            wanted@ == name@,
            p == (|i: int| types@[i].name@ == name@),
            forall|j: int| 0 <= j < i ==> !#[trigger] p(j),
        decreases types@.len() - i,
    {
        let here = chars_of(types[i].name.as_str());
        if chars_eq(here.as_slice(), wanted.as_slice()) {
            proof {
                crate::scan::lemma_first_index_is(types@.len() as int, p, i as int);
            }
            return Some(types[i].clone());
        }
        i = i + 1;
    }
    proof {
        crate::scan::lemma_first_index(types@.len() as int, p);
    }
    None
}

} // verus!
