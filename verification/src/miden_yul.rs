//! The fixed program that the first end-to-end demonstration produced.
use vstd::prelude::*;
use crate::text::string_from;

verus! {

/// The program that stores 5 and 7 in memory, loads them back and adds
/// them; the same for every input.
pub open spec fn demonstration_program() -> Seq<char> {
    "
    begin 
        push.0
        push.0
        push.0

        push.5
        mem.store.0

        push.7
        mem.store.1

        push.0
        push.0
        push.0
        push.0
        mem.load.0
        mem.load.1

        add
    end"@
}

/// Returns the demonstration program, whatever Yul it is given.
pub fn transpile_yul(yul: &str) -> (res: String)
    ensures
        res@ == demonstration_program(),
{
    string_from(
        "
    begin 
        push.0
        push.0
        push.0

        push.5
        mem.store.0

        push.7
        mem.store.1

        push.0
        push.0
        push.0
        push.0
        mem.load.0
        mem.load.1

        add
    end",
    )
}

} // verus!
