//! The built-in commands: what they compute, and their names.

pub mod print;
pub mod sleep;

use crate::engine::Engine;
use crate::interpreter::Command;
use vstd::prelude::*;

verus! {

/// Registers both built-in commands.
pub fn register_all<H: Command>(engine: &mut Engine<H>, print: H, sleep: H)
    ensures
        final(engine).commands() == old(engine).commands().insert("print"@, print).insert(
            "sleep"@,
            sleep,
        ),
        final(engine).store() == old(engine).store(),
{
    print::register(engine, print);
    sleep::register(engine, sleep);
}

} // verus!
