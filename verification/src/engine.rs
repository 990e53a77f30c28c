use crate::ast::{nodes_view, Node};
use crate::interpreter::{ran, Command, Context, Fault, Store};
use crate::table::Table;
use vstd::prelude::*;

verus! {

/// The variables of a program together with the commands it may call.
pub struct Engine<H> {
    ctx: Context,
    commands: Table<H>,
}

impl<H: Command> Engine<H> {
    /// The variables as the last run left them.
    pub closed spec fn store(&self) -> Store {
        self.ctx@
    }

    /// The registered commands, by name.
    pub closed spec fn commands(&self) -> Map<Seq<char>, H> {
        self.commands@
    }

    /// An engine without variables that knows the two built-in commands:
    /// `print`, which writes its arguments out, and `sleep`, which waits.
    pub fn new(print: H, sleep: H) -> (engine: Self)
        ensures
            engine.store() == Map::<Seq<char>, crate::interpreter::ValueView>::empty(),
            engine.commands() == Map::<Seq<char>, H>::empty().insert("print"@, print).insert(
                "sleep"@,
                sleep,
            ),
    {
        let mut engine = Self { ctx: Context::new(), commands: Table::new() };
        engine.register("print", print);
        engine.register("sleep", sleep);
        engine
    }

    /// The variables, to read.
    pub fn context(&self) -> (ctx: &Context)
        ensures
            ctx@ == self.store(),
    {
        &self.ctx
    }

    /// Puts the command `f` under `name`, in place of the one that was there,
    /// if any.
    pub fn register(&mut self, name: &str, f: H)
        ensures
            final(self).commands() == old(self).commands().insert(name@, f),
            final(self).store() == old(self).store(),
    {
        self.commands.insert(name.to_owned(), f);
    }

    /// Runs a program on the engine's variables with the registered commands,
    /// up to its end or its first fault. What was changed before a fault stays
    /// changed.
    pub fn run(&mut self, nodes: Vec<Node>) -> (r: Result<(), Fault>)
        ensures
            final(self).commands() == old(self).commands(),
            ran(
                nodes_view(nodes@),
                old(self).commands().dom(),
                old(self).store(),
                final(self).store(),
                r,
            ),
    {
        self.ctx.run_with_commands(nodes.as_slice(), &self.commands)
    }
}

} // verus!
