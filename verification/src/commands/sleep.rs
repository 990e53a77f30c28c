use crate::engine::Engine;
use crate::interpreter::{Command, Value, ValueView};
use vstd::prelude::*;

verus! {

/// Registers `handler` as the command `sleep`.
pub fn register<H: Command>(engine: &mut Engine<H>, handler: H)
    ensures
        final(engine).commands() == old(engine).commands().insert("sleep"@, handler),
        final(engine).store() == old(engine).store(),
{
    engine.register("sleep", handler);
}

/// For how many milliseconds `sleep` waits: the first argument where it is a
/// number, taken as unsigned, so that a negative number counts from the top
/// of the 64-bit range; `None` where there is no such argument, and then the
/// command does nothing.
pub open spec fn delay(args: Seq<ValueView>) -> Option<int> {
    if args.len() > 0 {
        match args[0] {
            ValueView::Num(ms) => Some(
                if ms >= 0 {
                    ms
                } else {
                    ms + 0x1_0000_0000_0000_0000
                },
            ),
            _ => None,
        }
    } else {
        None
    }
}

/// The milliseconds that `sleep` waits on these arguments.
pub fn delay_ms(args: &Vec<Value>) -> (r: Option<u64>)
    ensures
        match r {
            Some(ms) => delay(crate::interpreter::values_view(args@)) == Some(ms as int),
            None => delay(crate::interpreter::values_view(args@)) is None,
        },
{
    if args.len() == 0 {
        return None;
    }
    match &args[0] {
        Value::Num(ms) => {
            let ms: i64 = *ms;
            if ms >= 0 {
                Some(ms as u64)
            } else {
                Some(u64::MAX - ((-(ms + 1)) as u64))
            }
        },
        _ => None,
    }
}

} // verus!
