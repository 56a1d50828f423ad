use vstd::prelude::*;

use crate::opcodes::{decode, Opcode};

verus! {

/// Builds the dispatch table: the total mapping from each of the 256
/// possible opcode byte values to its decoded instruction, with `None` for
/// the undefined bytes that trap.  Built once per machine, never per step;
/// the interpreter's dispatch consults the same total decoding.
pub fn build_jump_table() -> (t: Vec<Option<Opcode>>)
    ensures
        t@.len() == 256,
        forall|i: int| 0 <= i < 256 ==> t@[i] == decode(i as u8),
{
    let mut t: Vec<Option<Opcode>> = Vec::new();
    let mut i: usize = 0;
    while i < 256
        invariant
            i <= 256,
            t@.len() == i,
            forall|j: int| 0 <= j < i ==> t@[j] == decode(j as u8),
        decreases 256 - i,
    {
        t.push(Opcode::from_u8(i as u8));
        i = i + 1;
    }
    t
}

} // verus!
