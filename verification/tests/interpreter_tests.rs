use scriptlet::ast::{Expr, Node, Op};
use scriptlet::engine::Engine;
use scriptlet::interpreter::{Command, Context, Fault, Value};
use scriptlet::lexer::Lexer;
use scriptlet::parser::Parser;
use scriptlet::table::Table;
use std::cell::RefCell;
use std::rc::Rc;

type Log = Rc<RefCell<Vec<(String, Vec<Value>)>>>;

enum Handler {
    Record(&'static str, Log),
    Fail(&'static str),
    Bind(&'static str, i64),
    Count(&'static str),
}

impl Command for Handler {
    fn call(&self, ctx: &mut Context, args: Vec<Value>) -> Result<(), String> {
        match self {
            Handler::Record(name, log) => {
                log.borrow_mut().push((name.to_string(), args));
                Ok(())
            }
            Handler::Fail(message) => Err(message.to_string()),
            Handler::Bind(name, n) => {
                ctx.set(name.to_string(), Value::Num(*n));
                Ok(())
            }
            Handler::Count(name) => {
                let n = match ctx.get(&name.to_string()) {
                    Some(Value::Num(n)) => n,
                    _ => 0,
                };
                ctx.set(name.to_string(), Value::Num(n + 1));
                Ok(())
            }
        }
    }
}

fn program(src: &str) -> Vec<Node> {
    Parser::new(Lexer::new(src).tokenize()).parse().unwrap()
}

fn engine(log: &Log) -> Engine<Handler> {
    Engine::new(Handler::Record("print", log.clone()), Handler::Record("sleep", log.clone()))
}

fn run(src: &str) -> (Result<(), Fault>, Vec<(String, Vec<Value>)>, Engine<Handler>) {
    let log: Log = Rc::new(RefCell::new(Vec::new()));
    let mut e = engine(&log);
    let r = e.run(program(src));
    let calls = log.borrow().clone();
    (r, calls, e)
}

fn printed(args: Vec<Value>) -> (String, Vec<Value>) {
    ("print".to_string(), args)
}

fn text(s: &str) -> Value {
    Value::Str(s.to_string())
}

fn get(e: &Engine<Handler>, name: &str) -> Option<Value> {
    e.context().get(&name.to_string())
}

#[test]
fn loop_calls_print_three_times_with_one() {
    let (r, calls, _) = run("loop (3) { print(1); }");
    assert_eq!(r, Ok(()));
    assert_eq!(
        calls,
        vec![
            printed(vec![Value::Num(1)]),
            printed(vec![Value::Num(1)]),
            printed(vec![Value::Num(1)])
        ]
    );
}

#[test]
fn conditional_takes_the_true_branch_only() {
    let (r, calls, _) =
        run("var a = 5; if (a > 3) { print(\"big\"); } else { print(\"small\"); }");
    assert_eq!(r, Ok(()));
    assert_eq!(calls, vec![printed(vec![text("big")])]);
}

#[test]
fn conditional_takes_the_else_branch_when_false() {
    let (r, calls, _) =
        run("var a = 2; if (a > 3) { print(\"big\"); } else { print(\"small\"); }");
    assert_eq!(r, Ok(()));
    assert_eq!(calls, vec![printed(vec![text("small")])]);
}

#[test]
fn false_condition_without_else_does_nothing() {
    let (r, calls, _) = run("if (1 > 3) { print(1); } print(2);");
    assert_eq!(r, Ok(()));
    assert_eq!(calls, vec![printed(vec![Value::Num(2)])]);
}

#[test]
fn undeclared_variable_ends_the_run() {
    let (r, calls, _) = run("print(z); print(1);");
    assert_eq!(r, Err(Fault::UnboundVariable("z".to_string())));
    assert_eq!(calls, vec![]);
}

#[test]
fn statements_before_a_fault_have_run() {
    let (r, calls, e) = run("var x = 1; print(x); y = z; print(2); var w = 3;");
    assert_eq!(r, Err(Fault::UnboundVariable("z".to_string())));
    assert_eq!(calls, vec![printed(vec![Value::Num(1)])]);
    assert_eq!(get(&e, "x"), Some(Value::Num(1)));
    assert_eq!(get(&e, "y"), None);
    assert_eq!(get(&e, "w"), None);
}

#[test]
fn assignment_in_a_block_changes_the_one_binding() {
    let (r, calls, e) = run("var x = 1; if (x == 1) { x = 2; } print(x);");
    assert_eq!(r, Ok(()));
    assert_eq!(calls, vec![printed(vec![Value::Num(2)])]);
    assert_eq!(get(&e, "x"), Some(Value::Num(2)));
}

#[test]
fn variable_declared_in_a_block_is_seen_after_it() {
    let (r, calls, _) = run("loop (1) { var y = 7; } print(y);");
    assert_eq!(r, Ok(()));
    assert_eq!(calls, vec![printed(vec![Value::Num(7)])]);
}

#[test]
fn assignment_binds_an_undeclared_name() {
    let (r, _, e) = run("x = 4;");
    assert_eq!(r, Ok(()));
    assert_eq!(get(&e, "x"), Some(Value::Num(4)));
}

#[test]
fn declaration_again_replaces_the_value() {
    let (r, _, e) = run("var x = 1; var x = \"s\";");
    assert_eq!(r, Ok(()));
    assert_eq!(get(&e, "x"), Some(text("s")));
}

#[test]
fn run_without_calls_ends_alike_twice() {
    let src = "var a = 5; var b = a > 3; if (b) { a = 1; } else { a = 2; } loop (3) { var c = a == 1; }";
    let (r1, calls1, e1) = run(src);
    let (r2, calls2, e2) = run(src);
    assert_eq!(r1, Ok(()));
    assert_eq!(r1, r2);
    assert_eq!(calls1, vec![]);
    assert_eq!(calls2, vec![]);
    for name in ["a", "b", "c", "d"] {
        assert_eq!(get(&e1, name), get(&e2, name));
    }
    assert_eq!(get(&e1, "a"), Some(Value::Num(1)));
    assert_eq!(get(&e1, "b"), Some(Value::Bool(true)));
    assert_eq!(get(&e1, "c"), Some(Value::Bool(true)));
}

#[test]
fn comparisons_of_numbers() {
    let (r, _, e) = run(
        "var a = 1 == 1; var b = 1 != 1; var c = 2 > 1; var d = 2 < 1; var f = 2 >= 2; var g = 3 <= 2;",
    );
    assert_eq!(r, Ok(()));
    assert_eq!(get(&e, "a"), Some(Value::Bool(true)));
    assert_eq!(get(&e, "b"), Some(Value::Bool(false)));
    assert_eq!(get(&e, "c"), Some(Value::Bool(true)));
    assert_eq!(get(&e, "d"), Some(Value::Bool(false)));
    assert_eq!(get(&e, "f"), Some(Value::Bool(true)));
    assert_eq!(get(&e, "g"), Some(Value::Bool(false)));
}

#[test]
fn logic_of_truth_values() {
    let (r, _, e) = run(
        "var t = 1 == 1; var f = 1 == 2; var a = t && f; var b = t || f; var c = f || f; var d = t && t;",
    );
    assert_eq!(r, Ok(()));
    assert_eq!(get(&e, "a"), Some(Value::Bool(false)));
    assert_eq!(get(&e, "b"), Some(Value::Bool(true)));
    assert_eq!(get(&e, "c"), Some(Value::Bool(false)));
    assert_eq!(get(&e, "d"), Some(Value::Bool(true)));
}

#[test]
fn operator_outside_its_domain_is_a_type_mismatch() {
    for src in [
        "var x = 1 && 2;",
        "var x = \"a\" == \"a\";",
        "var x = 1 == \"a\";",
        "var x = (1 == 1) == (1 == 1);",
        "var x = (1 == 1) > 2;",
        "var x = 1 || (1 == 1);",
    ] {
        let (r, _, e) = run(src);
        assert_eq!(r, Err(Fault::TypeMismatch));
        assert_eq!(get(&e, "x"), None);
    }
}

#[test]
fn left_operand_faults_first() {
    let (r, _, _) = run("var x = a == b;");
    assert_eq!(r, Err(Fault::UnboundVariable("a".to_string())));
    let (r, _, _) = run("var a = 1; var x = a == b;");
    assert_eq!(r, Err(Fault::UnboundVariable("b".to_string())));
    let (r, _, _) = run("var x = (1 && 2) == b;");
    assert_eq!(r, Err(Fault::TypeMismatch));
    let (r, _, _) = run("var s = \"s\"; var x = s == b;");
    assert_eq!(r, Err(Fault::UnboundVariable("b".to_string())));
}

#[test]
fn unknown_command_ends_the_run() {
    let (r, calls, _) = run("print(1); launch(2); print(3);");
    assert_eq!(r, Err(Fault::UnknownCommand("launch".to_string())));
    assert_eq!(calls, vec![printed(vec![Value::Num(1)])]);
}

#[test]
fn arguments_are_evaluated_before_the_command_is_looked_up() {
    let (r, _, _) = run("launch(z);");
    assert_eq!(r, Err(Fault::UnboundVariable("z".to_string())));
    let (r, _, _) = run("print(1, y, z);");
    assert_eq!(r, Err(Fault::UnboundVariable("y".to_string())));
}

#[test]
fn arguments_come_in_order() {
    let (r, calls, _) = run("var a = 2; print(1, a, \"x\", a > 1); sleep(10);");
    assert_eq!(r, Ok(()));
    assert_eq!(
        calls,
        vec![
            printed(vec![Value::Num(1), Value::Num(2), text("x"), Value::Bool(true)]),
            ("sleep".to_string(), vec![Value::Num(10)]),
        ]
    );
}

#[test]
fn loop_count_is_evaluated_once() {
    let (r, calls, e) = run("var n = 2; loop (n) { n = 5; print(n); }");
    assert_eq!(r, Ok(()));
    assert_eq!(calls.len(), 2);
    assert_eq!(get(&e, "n"), Some(Value::Num(5)));
}

#[test]
fn loop_with_zero_or_negative_count_runs_nothing() {
    let (r, calls, _) = run("loop (0) { print(1); }");
    assert_eq!((r, calls), (Ok(()), vec![]));
    let nodes = vec![Node::Loop {
        times: Expr::Number(-3),
        body: vec![Node::Call { name: "print".to_string(), args: vec![] }],
    }];
    let log: Log = Rc::new(RefCell::new(Vec::new()));
    let mut e = engine(&log);
    assert_eq!(e.run(nodes), Ok(()));
    assert_eq!(log.borrow().len(), 0);
}

#[test]
fn loop_count_that_is_no_number_runs_nothing() {
    let (r, calls, _) = run("loop (\"three\") { print(1); } loop (1 == 1) { print(2); } print(3);");
    assert_eq!(r, Ok(()));
    assert_eq!(calls, vec![printed(vec![Value::Num(3)])]);
}

#[test]
fn condition_that_is_no_truth_value_runs_nothing() {
    let (r, calls, _) = run("if (1) { print(1); } else { print(2); } if (\"s\") { print(3); } print(4);");
    assert_eq!(r, Ok(()));
    assert_eq!(calls, vec![printed(vec![Value::Num(4)])]);
}

#[test]
fn fault_in_loop_count_or_condition_ends_the_run() {
    let (r, _, _) = run("loop (n) { }");
    assert_eq!(r, Err(Fault::UnboundVariable("n".to_string())));
    let (r, _, _) = run("if (1 > \"a\") { }");
    assert_eq!(r, Err(Fault::TypeMismatch));
}

#[test]
fn fault_inside_a_loop_stops_all_rounds() {
    let (r, calls, _) = run("var i = 1; loop (5) { print(i); i = z; }");
    assert_eq!(r, Err(Fault::UnboundVariable("z".to_string())));
    assert_eq!(calls, vec![printed(vec![Value::Num(1)])]);
}

#[test]
fn nested_loops_multiply() {
    let (r, calls, _) = run("loop (2) { loop (3) { print(0); } }");
    assert_eq!(r, Ok(()));
    assert_eq!(calls.len(), 6);
}

#[test]
fn command_may_end_the_run() {
    let log: Log = Rc::new(RefCell::new(Vec::new()));
    let mut e = engine(&log);
    e.register("stop", Handler::Fail("enough"));
    let r = e.run(program("print(1); stop(); print(2);"));
    assert_eq!(
        r,
        Err(Fault::CommandFailed { name: "stop".to_string(), message: "enough".to_string() })
    );
    assert_eq!(log.borrow().clone(), vec![printed(vec![Value::Num(1)])]);
}

#[test]
fn command_may_change_variables() {
    let log: Log = Rc::new(RefCell::new(Vec::new()));
    let mut e = engine(&log);
    e.register("answer", Handler::Bind("x", 42));
    e.register("tick", Handler::Count("n"));
    let r = e.run(program("var x = 1; answer(); print(x); loop (4) { tick(); } print(n);"));
    assert_eq!(r, Ok(()));
    assert_eq!(
        log.borrow().clone(),
        vec![printed(vec![Value::Num(42)]), printed(vec![Value::Num(4)])]
    );
}

#[test]
fn register_replaces_a_command() {
    let log: Log = Rc::new(RefCell::new(Vec::new()));
    let mut e = engine(&log);
    e.register("print", Handler::Record("other", log.clone()));
    assert_eq!(e.run(program("print(1);")), Ok(()));
    assert_eq!(log.borrow().clone(), vec![("other".to_string(), vec![Value::Num(1)])]);
}

#[test]
fn variables_last_from_run_to_run() {
    let log: Log = Rc::new(RefCell::new(Vec::new()));
    let mut e = engine(&log);
    assert_eq!(e.run(program("var x = 3;")), Ok(()));
    assert_eq!(e.run(program("print(x);")), Ok(()));
    assert_eq!(log.borrow().clone(), vec![printed(vec![Value::Num(3)])]);
}

#[test]
fn context_runs_with_a_table_of_commands() {
    let log: Log = Rc::new(RefCell::new(Vec::new()));
    let mut cmds: Table<Handler> = Table::new();
    cmds.insert("say".to_string(), Handler::Record("say", log.clone()));
    let mut ctx = Context::new();
    let nodes = program("var x = 1; say(x); print(x);");
    assert_eq!(
        ctx.run_with_commands(&nodes, &cmds),
        Err(Fault::UnknownCommand("print".to_string()))
    );
    assert_eq!(log.borrow().clone(), vec![("say".to_string(), vec![Value::Num(1)])]);
    assert_eq!(ctx.get(&"x".to_string()), Some(Value::Num(1)));
}

#[test]
fn context_get_and_set() {
    let mut ctx = Context::new();
    assert_eq!(ctx.get(&"a".to_string()), None);
    ctx.set("a".to_string(), Value::Num(1));
    ctx.set("b".to_string(), Value::Bool(false));
    ctx.set("a".to_string(), text("t"));
    assert_eq!(ctx.get(&"a".to_string()), Some(text("t")));
    assert_eq!(ctx.get(&"b".to_string()), Some(Value::Bool(false)));
    assert_eq!(ctx.get(&"".to_string()), None);
}

#[test]
fn table_keeps_the_last_value_of_a_name() {
    let mut t: Table<i64> = Table::new();
    assert_eq!(t.get(&"a".to_string()), None);
    t.insert("a".to_string(), 1);
    t.insert("b".to_string(), 2);
    t.insert("a".to_string(), 3);
    assert_eq!(t.get(&"a".to_string()), Some(&3));
    assert_eq!(t.get(&"b".to_string()), Some(&2));
    assert_eq!(t.get(&"c".to_string()), None);
}

#[test]
fn value_clone_is_equal() {
    for v in [Value::Num(-1), text("a"), Value::Bool(true)] {
        assert_eq!(v.clone(), v);
    }
}

#[test]
fn expression_tree_evaluates_in_a_hand_built_program() {
    let e = Expr::Binary(
        Box::new(Expr::Binary(Box::new(Expr::Number(1)), Op::Lt, Box::new(Expr::Number(2)))),
        Op::And,
        Box::new(Expr::Binary(Box::new(Expr::Number(3)), Op::Ge, Box::new(Expr::Number(3)))),
    );
    let nodes = vec![Node::VarDecl { name: "r".to_string(), value: e }];
    let mut ctx = Context::new();
    let cmds: Table<Handler> = Table::new();
    assert_eq!(ctx.run_with_commands(&nodes, &cmds), Ok(()));
    assert_eq!(ctx.get(&"r".to_string()), Some(Value::Bool(true)));
}
