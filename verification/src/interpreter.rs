use crate::ast::{exprs_view, nodes_view, Expr, ExprView, Node, NodeView, Op};
use crate::table::Table;
use vstd::prelude::*;

verus! {

/// A value at run time: a number, a text or a truth value.
#[derive(Debug, PartialEq)]
pub enum Value {
    Num(i64),
    Str(String),
    Bool(bool),
}

/// What a value stands for.
pub enum ValueView {
    Num(int),
    Str(Seq<char>),
    Bool(bool),
}

impl View for Value {
    type V = ValueView;

    open spec fn view(&self) -> ValueView {
        match self {
            Value::Num(n) => ValueView::Num(*n as int),
            Value::Str(s) => ValueView::Str(s@),
            Value::Bool(b) => ValueView::Bool(*b),
        }
    }
}

impl Clone for Value {
    fn clone(&self) -> (r: Self)
        ensures
            r@ == self@,
    {
        match self {
            Value::Num(n) => Value::Num(*n),
            Value::Str(s) => Value::Str(s.clone()),
            Value::Bool(b) => Value::Bool(*b),
        }
    }
}

/// The views of a run of values, in order.
pub open spec fn values_view(values: Seq<Value>) -> Seq<ValueView> {
    values.map_values(|v: Value| v@)
}

/// A condition that ends a run at the point where it is found.
#[derive(Debug, PartialEq)]
pub enum Fault {
    /// A variable was read that no statement had bound.
    UnboundVariable(String),
    /// An operator was applied to operands outside its domain.
    TypeMismatch,
    /// A call named a command that is not registered.
    UnknownCommand(String),
    /// A command ended the run with a message of its own.
    CommandFailed { name: String, message: String },
}

/// What a fault stands for.
pub enum FaultView {
    UnboundVariable(Seq<char>),
    TypeMismatch,
    UnknownCommand(Seq<char>),
    CommandFailed { name: Seq<char>, message: Seq<char> },
}

impl View for Fault {
    type V = FaultView;

    open spec fn view(&self) -> FaultView {
        match self {
            Fault::UnboundVariable(s) => FaultView::UnboundVariable(s@),
            Fault::TypeMismatch => FaultView::TypeMismatch,
            Fault::UnknownCommand(s) => FaultView::UnknownCommand(s@),
            Fault::CommandFailed { name, message } => FaultView::CommandFailed {
                name: name@,
                message: message@,
            },
        }
    }
}

/// The variables: one flat map from names to values for the whole run.
pub type Store = Map<Seq<char>, ValueView>;

/// What an operator gives on two values. The comparisons take two numbers,
/// `&&` and `||` two truth values; every other combination is a type mismatch.
pub open spec fn apply(op: Op, l: ValueView, r: ValueView) -> Result<ValueView, FaultView> {
    match (l, r, op) {
        (ValueView::Num(x), ValueView::Num(y), Op::Eq) => Ok(ValueView::Bool(x == y)),
        (ValueView::Num(x), ValueView::Num(y), Op::Ne) => Ok(ValueView::Bool(x != y)),
        (ValueView::Num(x), ValueView::Num(y), Op::Gt) => Ok(ValueView::Bool(x > y)),
        (ValueView::Num(x), ValueView::Num(y), Op::Lt) => Ok(ValueView::Bool(x < y)),
        (ValueView::Num(x), ValueView::Num(y), Op::Ge) => Ok(ValueView::Bool(x >= y)),
        (ValueView::Num(x), ValueView::Num(y), Op::Le) => Ok(ValueView::Bool(x <= y)),
        (ValueView::Bool(x), ValueView::Bool(y), Op::And) => Ok(ValueView::Bool(x && y)),
        (ValueView::Bool(x), ValueView::Bool(y), Op::Or) => Ok(ValueView::Bool(x || y)),
        _ => Err(FaultView::TypeMismatch),
    }
}

/// The value of an expression. Both operands of an operator are evaluated,
/// the left one first, before the operator is applied.
pub open spec fn eval(e: ExprView, store: Store) -> Result<ValueView, FaultView>
    decreases e,
{
    match e {
        ExprView::Number(n) => Ok(ValueView::Num(n)),
        ExprView::Str(s) => Ok(ValueView::Str(s)),
        ExprView::Var(name) => if store.contains_key(name) {
            Ok(store[name])
        } else {
            Err(FaultView::UnboundVariable(name))
        },
        ExprView::Binary(a, op, b) => match eval(*a, store) {
            Err(f) => Err(f),
            Ok(l) => match eval(*b, store) {
                Err(f) => Err(f),
                Ok(r) => apply(op, l, r),
            },
        },
    }
}

/// The values of the expressions from index `i` on, after those in `acc`; the
/// first fault, going from left to right, where there is one.
pub open spec fn eval_from(args: Seq<ExprView>, i: nat, store: Store, acc: Seq<ValueView>) -> Result<
    Seq<ValueView>,
    FaultView,
>
    decreases args.len() - i,
{
    if i >= args.len() {
        Ok(acc)
    } else {
        match eval(args[i as int], store) {
            Err(f) => Err(f),
            Ok(v) => eval_from(args, i + 1, store, acc.push(v)),
        }
    }
}

/// The values of the arguments of a call.
pub open spec fn eval_all(args: Seq<ExprView>, store: Store) -> Result<Seq<ValueView>, FaultView> {
    eval_from(args, 0, store, Seq::empty())
}

/// One call of a command: its name and the values handed to it.
pub struct Invocation {
    pub name: Seq<char>,
    pub args: Seq<ValueView>,
}

/// What a command did when it was called: the variables as it left them, and
/// the message with which it ended the run, if it did so.
pub struct Reply {
    pub store: Store,
    pub failure: Option<Seq<char>>,
}

/// What the commands do, call by call: the reply to the first call of a run is
/// the host's value at 0, to the second at 1, and so on. The host stands for
/// everything outside the interpreter.
pub type Host = spec_fn(nat) -> Reply;

/// A run at some point: the variables, the calls made so far, and the fault
/// that ended it, if one did.
pub struct Run {
    pub store: Store,
    pub calls: Seq<Invocation>,
    pub fault: Option<FaultView>,
}

impl Run {
    /// A run that starts on `store`.
    pub open spec fn start(store: Store) -> Run {
        Run { store, calls: Seq::empty(), fault: None }
    }

    /// This run, ended by `fault`.
    pub open spec fn stop(self, fault: FaultView) -> Run {
        Run { store: self.store, calls: self.calls, fault: Some(fault) }
    }

    /// This run after `name` was bound to `value`.
    pub open spec fn bind(self, name: Seq<char>, value: ValueView) -> Run {
        Run { store: self.store.insert(name, value), calls: self.calls, fault: self.fault }
    }

    /// This run after a call of `name` with `args`, to which the host gave
    /// `reply`.
    pub open spec fn call(self, name: Seq<char>, args: Seq<ValueView>, reply: Reply) -> Run {
        Run {
            store: reply.store,
            calls: self.calls.push(Invocation { name, args }),
            fault: match reply.failure {
                Some(message) => Some(FaultView::CommandFailed { name, message }),
                None => None,
            },
        }
    }
}

/// How often a loop with count `n` runs its body.
pub open spec fn count(n: int) -> nat {
    if n > 0 {
        n as nat
    } else {
        0
    }
}

/// A run after one statement. `known` holds the names of the registered
/// commands.
///
/// A declaration and an assignment both bind the name to the value. A call
/// evaluates its arguments from left to right, then looks the command up, then
/// hands the values to it; the host says what the command did. A loop
/// evaluates its count once; a count that is no number runs nothing, and so
/// does a condition that is no truth value.
pub open spec fn run_node(n: NodeView, known: Set<Seq<char>>, host: Host, r: Run) -> Run
    decreases n, 0nat, 0nat,
{
    match n {
        NodeView::VarDecl { name, value } => match eval(value, r.store) {
            Err(f) => r.stop(f),
            Ok(v) => r.bind(name, v),
        },
        NodeView::Assign { name, value } => match eval(value, r.store) {
            Err(f) => r.stop(f),
            Ok(v) => r.bind(name, v),
        },
        NodeView::Call { name, args } => match eval_all(args, r.store) {
            Err(f) => r.stop(f),
            Ok(values) => if known.contains(name) {
                r.call(name, values, host(r.calls.len()))
            } else {
                r.stop(FaultView::UnknownCommand(name))
            },
        },
        NodeView::Loop { times, body } => match eval(times, r.store) {
            Err(f) => r.stop(f),
            Ok(v) => match v {
                ValueView::Num(n) => repeat(body, count(n), known, host, r),
                _ => r,
            },
        },
        NodeView::If { cond, then_body, else_body } => match eval(cond, r.store) {
            Err(f) => r.stop(f),
            Ok(v) => match v {
                ValueView::Bool(b) => if b {
                    run_seq(then_body, 0, known, host, r)
                } else {
                    match else_body {
                        Some(e) => run_seq(e, 0, known, host, r),
                        None => r,
                    }
                },
                _ => r,
            },
        },
    }
}

/// A run after the statements from index `i` on, in order. Nothing runs after
/// a fault.
pub open spec fn run_seq(nodes: Seq<NodeView>, i: nat, known: Set<Seq<char>>, host: Host, r: Run) -> Run
    decreases nodes, 0nat, nodes.len() - i,
{
    if i >= nodes.len() || r.fault is Some {
        r
    } else {
        run_seq(nodes, i + 1, known, host, run_node(nodes[i as int], known, host, r))
    }
}

/// A run after `n` rounds of `body`. All rounds share the variables.
pub open spec fn repeat(body: Seq<NodeView>, n: nat, known: Set<Seq<char>>, host: Host, r: Run) -> Run
    decreases body, n + 1, 0nat,
{
    if n == 0 || r.fault is Some {
        r
    } else {
        repeat(body, (n - 1) as nat, known, host, run_seq(body, 0, known, host, r))
    }
}

/// A whole run of `nodes` that starts on `store`.
pub open spec fn run(nodes: Seq<NodeView>, known: Set<Seq<char>>, host: Host, store: Store) -> Run {
    run_seq(nodes, 0, known, host, Run::start(store))
}

/// What `r` says of how a run ended.
pub open spec fn fault_of(r: Result<(), Fault>) -> Option<FaultView> {
    match r {
        Ok(_) => None,
        Err(f) => Some(f@),
    }
}

spec fn value_outcome(r: Result<Value, Fault>) -> Result<ValueView, FaultView> {
    match r {
        Ok(v) => Ok(v@),
        Err(f) => Err(f@),
    }
}

spec fn values_outcome(r: Result<Vec<Value>, Fault>) -> Result<Seq<ValueView>, FaultView> {
    match r {
        Ok(v) => Ok(values_view(v@)),
        Err(f) => Err(f@),
    }
}

/// Whether a run of `nodes` with the commands `known`, started on the
/// variables `before`, can have ended as `r` says and left the variables
/// `after`: whether some host gives that run.
pub open spec fn ran(
    nodes: Seq<NodeView>,
    known: Set<Seq<char>>,
    before: Store,
    after: Store,
    r: Result<(), Fault>,
) -> bool {
    exists|host: Host|
        {
            let end = #[trigger] run(nodes, known, host, before);
            end.store == after && end.fault == fault_of(r)
        }
}

/// A command of the host. The interpreter hands it the evaluated arguments
/// and the variables, which it may read and change. `Err` ends the run with
/// the message; a command that only wants to report a fault of its own returns
/// `Ok`.
pub trait Command {
    fn call(&self, ctx: &mut Context, args: Vec<Value>) -> Result<(), String>;
}

// What follows keeps book of a run while it is executed. A journal holds one
// entry for each call so far: what was handed to the command and what the
// command did. A host agrees with a journal if it replies to each of these
// calls as the command did.
struct Exchange {
    call: Invocation,
    reply: Reply,
}

spec fn failure_of(r: Result<(), String>) -> Option<Seq<char>> {
    match r {
        Ok(_) => None,
        Err(m) => Some(m@),
    }
}

spec fn calls_of(journal: Seq<Exchange>) -> Seq<Invocation> {
    journal.map_values(|x: Exchange| x.call)
}

spec fn agrees(host: Host, journal: Seq<Exchange>) -> bool {
    forall|i: nat| i < journal.len() ==> #[trigger] host(i) == journal[i as int].reply
}

spec fn extends(after: Seq<Exchange>, before: Seq<Exchange>) -> bool {
    before.len() <= after.len() && after.take(before.len() as int) == before
}

spec fn at(store: Store, journal: Seq<Exchange>) -> Run {
    Run { store, calls: calls_of(journal), fault: None }
}

spec fn ended(store: Store, journal: Seq<Exchange>, r: Result<(), Fault>) -> Run {
    Run { store, calls: calls_of(journal), fault: fault_of(r) }
}

spec fn replay(journal: Seq<Exchange>) -> Host {
    |i: nat|
        if i < journal.len() {
            journal[i as int].reply
        } else {
            arbitrary()
        }
}

proof fn lemma_extends(host: Host, after: Seq<Exchange>, before: Seq<Exchange>)
    requires
        extends(after, before),
        agrees(host, after),
    ensures
        agrees(host, before),
{
    assert forall|i: nat| i < before.len() implies #[trigger] host(i) == before[i as int].reply by {
        assert(after.take(before.len() as int)[i as int] == after[i as int]);
    }
}

fn apply_op(op: Op, l: Value, r: Value) -> (out: Result<Value, Fault>)
    ensures
        value_outcome(out) == apply(op, l@, r@),
{
    match (l, r, op) {
        (Value::Num(x), Value::Num(y), Op::Eq) => Ok(Value::Bool(x == y)),
        (Value::Num(x), Value::Num(y), Op::Ne) => Ok(Value::Bool(x != y)),
        (Value::Num(x), Value::Num(y), Op::Gt) => Ok(Value::Bool(x > y)),
        (Value::Num(x), Value::Num(y), Op::Lt) => Ok(Value::Bool(x < y)),
        (Value::Num(x), Value::Num(y), Op::Ge) => Ok(Value::Bool(x >= y)),
        (Value::Num(x), Value::Num(y), Op::Le) => Ok(Value::Bool(x <= y)),
        (Value::Bool(x), Value::Bool(y), Op::And) => Ok(Value::Bool(x && y)),
        (Value::Bool(x), Value::Bool(y), Op::Or) => Ok(Value::Bool(x || y)),
        _ => Err(Fault::TypeMismatch),
    }
}

/// The variables of a run.
pub struct Context {
    vars: Table<Value>,
}

impl View for Context {
    type V = Store;

    closed spec fn view(&self) -> Store {
        self.vars@.map_values(|v: Value| v@)
    }
}

impl Context {
    /// A context without variables.
    pub fn new() -> (ctx: Self)
        ensures
            ctx@ == Map::<Seq<char>, ValueView>::empty(),
    {
        let ctx = Self { vars: Table::new() };
        assert(ctx@ =~= Map::<Seq<char>, ValueView>::empty());
        ctx
    }

    /// The value of the variable `name`, if it is bound.
    pub fn get(&self, name: &String) -> (r: Option<Value>)
        ensures
            match r {
                Some(v) => self@.contains_key(name@) && v@ == self@[name@],
                None => !self@.contains_key(name@),
            },
    {
        match self.vars.get(name) {
            Some(v) => Some(v.clone()),
            None => None,
        }
    }

    /// Binds the variable `name` to `value`, whether or not it was bound.
    pub fn set(&mut self, name: String, value: Value)
        ensures
            final(self)@ == old(self)@.insert(name@, value@),
    {
        self.vars.insert(name, value);
        assert(self@ =~= old(self)@.insert(name@, value@));
    }

    /// Runs `nodes` in order on these variables, with the commands `cmds`,
    /// and stops at the first fault. What a command does is the host's
    /// affair: whatever each call did, the run is the one that `run` gives
    /// for a host that did the same.
    pub fn run_with_commands<H: Command>(&mut self, nodes: &[Node], cmds: &Table<H>) -> (r: Result<
        (),
        Fault,
    >)
        ensures
            ran(nodes_view(nodes@), cmds@.dom(), old(self)@, final(self)@, r),
    {
        let (r, Ghost(journal)) = self.run_block(nodes, cmds, Ghost(Seq::empty()));
        proof {
            let host = replay(journal);
            assert(agrees(host, journal));
            assert(calls_of(Seq::<Exchange>::empty()) =~= Seq::<Invocation>::empty());
            assert(at(old(self)@, Seq::empty()) == Run::start(old(self)@));
            let end = run(nodes_view(nodes@), cmds@.dom(), host, old(self)@);
            assert(end == ended(self@, journal, r));
        }
        r
    }

    #[verifier::rlimit(50)]
    #[verifier::loop_isolation(false)]
    fn run_block<H: Command>(
        &mut self,
        nodes: &[Node],
        cmds: &Table<H>,
        Ghost(done): Ghost<Seq<Exchange>>,
    ) -> (out: (Result<(), Fault>, Ghost<Seq<Exchange>>))
        ensures
            extends(out.1@, done),
            forall|host: Host|
                agrees(host, out.1@) ==> #[trigger] run_seq(
                    nodes_view(nodes@),
                    0,
                    cmds@.dom(),
                    host,
                    at(old(self)@, done),
                ) == ended(final(self)@, out.1@, out.0),
        decreases nodes@, 0nat,
    {
        let ghost all = nodes_view(nodes@);
        let ghost known = cmds@.dom();
        let ghost start = at(self@, done);
        let ghost mut journal = done;
        let mut i: usize = 0;
        assert(done.take(done.len() as int) =~= done);
        while i < nodes.len()
            invariant
                i <= nodes.len(),
                extends(journal, done),
                forall|host: Host|
                    agrees(host, journal) ==> #[trigger] run_seq(all, 0, known, host, start)
                        == run_seq(all, i as nat, known, host, at(self@, journal)),
            decreases nodes.len() - i,
        {
            let ghost before = self@;
            let ghost earlier = journal;
            let (r, Ghost(next)) = self.exec(&nodes[i], cmds, Ghost(journal));
            proof {
                assert(extends(next, done)) by {
                    assert(next.take(done.len() as int) =~= next.take(earlier.len() as int).take(
                        done.len() as int,
                    ));
                }
                assert forall|host: Host| agrees(host, next) implies #[trigger] run_seq(
                    all,
                    0,
                    known,
                    host,
                    start,
                ) == run_seq(all, (i + 1) as nat, known, host, ended(self@, next, r)) by {
                    lemma_extends(host, next, earlier);
                    assert(all[i as int] == nodes@[i as int]@);
                    assert(run_node(nodes@[i as int]@, known, host, at(before, earlier)) == ended(
                        self@,
                        next,
                        r,
                    ));
                }
                journal = next;
            }
            match r {
                Err(f) => {
                    return (Err(f), Ghost(journal));
                },
                Ok(_) => {},
            }
            i += 1;
        }
        (Ok(()), Ghost(journal))
    }

    #[verifier::rlimit(50)]
    #[verifier::loop_isolation(false)]
    fn repeat<H: Command>(
        &mut self,
        body: &[Node],
        n: i64,
        cmds: &Table<H>,
        Ghost(done): Ghost<Seq<Exchange>>,
    ) -> (out: (Result<(), Fault>, Ghost<Seq<Exchange>>))
        ensures
            extends(out.1@, done),
            forall|host: Host|
                agrees(host, out.1@) ==> #[trigger] repeat(
                    nodes_view(body@),
                    count(n as int),
                    cmds@.dom(),
                    host,
                    at(old(self)@, done),
                ) == ended(final(self)@, out.1@, out.0),
        decreases body@, 1nat,
    {
        let ghost all = nodes_view(body@);
        let ghost known = cmds@.dom();
        let ghost start = at(self@, done);
        let ghost mut journal = done;
        let mut i: i64 = 0;
        assert(done.take(done.len() as int) =~= done);
        while i < n
            invariant
                0 <= i <= count(n as int),
                extends(journal, done),
                forall|host: Host|
                    agrees(host, journal) ==> #[trigger] repeat(
                        all,
                        count(n as int),
                        known,
                        host,
                        start,
                    ) == repeat(all, (count(n as int) - i) as nat, known, host, at(self@, journal)),
            decreases n - i,
        {
            let ghost before = self@;
            let ghost earlier = journal;
            let (r, Ghost(next)) = self.run_block(body, cmds, Ghost(journal));
            proof {
                assert(extends(next, done)) by {
                    assert(next.take(done.len() as int) =~= next.take(earlier.len() as int).take(
                        done.len() as int,
                    ));
                }
                assert forall|host: Host| agrees(host, next) implies #[trigger] repeat(
                    all,
                    count(n as int),
                    known,
                    host,
                    start,
                ) == repeat(
                    all,
                    (count(n as int) - i - 1) as nat,
                    known,
                    host,
                    ended(self@, next, r),
                ) by {
                    lemma_extends(host, next, earlier);
                    assert(run_seq(all, 0, known, host, at(before, earlier)) == ended(
                        self@,
                        next,
                        r,
                    ));
                }
                journal = next;
            }
            match r {
                Err(f) => {
                    return (Err(f), Ghost(journal));
                },
                Ok(_) => {},
            }
            i += 1;
        }
        (Ok(()), Ghost(journal))
    }

    #[verifier::rlimit(50)]
    fn exec<H: Command>(
        &mut self,
        n: &Node,
        cmds: &Table<H>,
        Ghost(done): Ghost<Seq<Exchange>>,
    ) -> (out: (Result<(), Fault>, Ghost<Seq<Exchange>>))
        ensures
            extends(out.1@, done),
            forall|host: Host|
                agrees(host, out.1@) ==> #[trigger] run_node(
                    n@,
                    cmds@.dom(),
                    host,
                    at(old(self)@, done),
                ) == ended(final(self)@, out.1@, out.0),
        decreases n, 0nat,
    {
        assert(done.take(done.len() as int) =~= done);
        let ghost known = cmds@.dom();
        let ghost start = at(self@, done);
        match n {
            Node::VarDecl { name, value } => match self.eval(value) {
                Err(f) => {
                    assert(forall|host: Host| #[trigger]
                        run_node(n@, known, host, start) == start.stop(f@));
                    (Err(f), Ghost(done))
                },
                Ok(v) => {
                    self.set(name.clone(), v);
                    assert(forall|host: Host| #[trigger]
                        run_node(n@, known, host, start) == start.bind(name@, v@));
                    (Ok(()), Ghost(done))
                },
            },
            Node::Assign { name, value } => match self.eval(value) {
                Err(f) => {
                    assert(forall|host: Host| #[trigger]
                        run_node(n@, known, host, start) == start.stop(f@));
                    (Err(f), Ghost(done))
                },
                Ok(v) => {
                    self.set(name.clone(), v);
                    assert(forall|host: Host| #[trigger]
                        run_node(n@, known, host, start) == start.bind(name@, v@));
                    (Ok(()), Ghost(done))
                },
            },
            Node::Call { name, args } => {
                let vals = match self.eval_args(args) {
                    Err(f) => {
                        assert(forall|host: Host| #[trigger]
                            run_node(n@, known, host, start) == start.stop(f@));
                        return (Err(f), Ghost(done));
                    },
                    Ok(vals) => vals,
                };
                match cmds.get(name) {
                    None => {
                        assert(forall|host: Host| #[trigger]
                            run_node(n@, known, host, start) == start.stop(
                                FaultView::UnknownCommand(name@),
                            ));
                        (Err(Fault::UnknownCommand(name.clone())), Ghost(done))
                    },
                    Some(cmd) => {
                        let ghost values = values_view(vals@);
                        let ghost call = Invocation { name: name@, args: values };
                        let r = cmd.call(self, vals);
                        let ghost reply = Reply { store: self@, failure: failure_of(r) };
                        let ghost journal = done.push(Exchange { call, reply });
                        proof {
                            assert(journal.take(done.len() as int) =~= done);
                            assert(calls_of(journal) =~= calls_of(done).push(call));
                            assert(calls_of(done).len() == done.len());
                            assert forall|host: Host| agrees(host, journal) implies #[trigger] run_node(
                                n@,
                                known,
                                host,
                                start,
                            ) == start.call(name@, values, reply) by {
                                assert(host(done.len()) == journal[done.len() as int].reply);
                            }
                        }
                        match r {
                            Ok(_) => (Ok(()), Ghost(journal)),
                            Err(message) => (
                                Err(Fault::CommandFailed { name: name.clone(), message }),
                                Ghost(journal),
                            ),
                        }
                    },
                }
            },
            Node::Loop { times, body } => match self.eval(times) {
                Err(f) => {
                    assert(forall|host: Host| #[trigger]
                        run_node(n@, known, host, start) == start.stop(f@));
                    (Err(f), Ghost(done))
                },
                Ok(Value::Num(k)) => {
                    assert(forall|host: Host| #[trigger]
                        run_node(n@, known, host, start) == repeat(
                            nodes_view(body@),
                            count(k as int),
                            known,
                            host,
                            start,
                        ));
                    self.repeat(body.as_slice(), k, cmds, Ghost(done))
                },
                Ok(_) => {
                    assert(forall|host: Host| #[trigger] run_node(n@, known, host, start) == start);
                    (Ok(()), Ghost(done))
                },
            },
            Node::If { cond, then_body, else_body } => match self.eval(cond) {
                Err(f) => {
                    assert(forall|host: Host| #[trigger]
                        run_node(n@, known, host, start) == start.stop(f@));
                    (Err(f), Ghost(done))
                },
                Ok(Value::Bool(b)) => {
                    if b {
                        assert(forall|host: Host| #[trigger]
                            run_node(n@, known, host, start) == run_seq(
                                nodes_view(then_body@),
                                0,
                                known,
                                host,
                                start,
                            ));
                        self.run_block(then_body.as_slice(), cmds, Ghost(done))
                    } else {
                        match else_body {
                            Some(e) => {
                                assert(forall|host: Host| #[trigger]
                                    run_node(n@, known, host, start) == run_seq(
                                        nodes_view(e@),
                                        0,
                                        known,
                                        host,
                                        start,
                                    ));
                                self.run_block(e.as_slice(), cmds, Ghost(done))
                            },
                            None => {
                                assert(forall|host: Host| #[trigger]
                                    run_node(n@, known, host, start) == start);
                                (Ok(()), Ghost(done))
                            },
                        }
                    }
                },
                Ok(_) => {
                    assert(forall|host: Host| #[trigger] run_node(n@, known, host, start) == start);
                    (Ok(()), Ghost(done))
                },
            },
        }
    }

    #[verifier::loop_isolation(false)]
    fn eval_args(&self, args: &Vec<Expr>) -> (r: Result<Vec<Value>, Fault>)
        ensures
            values_outcome(r) == eval_all(exprs_view(args@), self@),
    {
        let mut vals: Vec<Value> = Vec::new();
        let mut i: usize = 0;
        assert(values_view(vals@) =~= Seq::empty());
        while i < args.len()
            invariant
                i <= args.len(),
                eval_all(exprs_view(args@), self@) == eval_from(
                    exprs_view(args@),
                    i as nat,
                    self@,
                    values_view(vals@),
                ),
            decreases args.len() - i,
        {
            let ghost acc = values_view(vals@);
            match self.eval(&args[i]) {
                Err(f) => {
                    return Err(f);
                },
                Ok(v) => {
                    vals.push(v);
                    assert(values_view(vals@) =~= acc.push(v@));
                },
            }
            i += 1;
        }
        Ok(vals)
    }

    fn eval(&self, e: &Expr) -> (r: Result<Value, Fault>)
        ensures
            value_outcome(r) == eval(e@, self@),
        decreases e,
    {
        match e {
            Expr::Number(n) => Ok(Value::Num(*n)),
            Expr::Str(s) => Ok(Value::Str(s.clone())),
            Expr::Var(name) => match self.get(name) {
                Some(v) => Ok(v),
                None => Err(Fault::UnboundVariable(name.clone())),
            },
            Expr::Binary(a, op, b) => {
                let l = match self.eval(&**a) {
                    Ok(l) => l,
                    Err(f) => {
                        return Err(f);
                    },
                };
                let r = match self.eval(&**b) {
                    Ok(r) => r,
                    Err(f) => {
                        return Err(f);
                    },
                };
                apply_op(*op, l, r)
            },
        }
    }
}

} // verus!
