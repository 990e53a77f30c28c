//! What holds of every program.

use crate::ast::NodeView;
use crate::interpreter::{
    count, eval, fault_of, ran, repeat, run, run_node, run_seq, Fault, Host, Run, Store, ValueView,
};
use crate::chars::is_digit;
use crate::commands::print::{digit_char, digits};
use crate::functions::color::{hashes_end, hex_color, hex_digit, hex_pair};
use crate::functions::get_color::{hex_char, hex_text};
use crate::lexer::{
    decimal, has_newline, lemma_next_token, lex, lex_from, next_token, run_end, Class, Scan,
};
use crate::token::closes_operand;
use crate::parser::{items, left, peek, program, stmt};
use crate::token::TokenView;
use vstd::prelude::*;

verus! {

/// Whether a statement calls no command, neither itself nor in its bodies.
pub open spec fn quiet(n: NodeView) -> bool
    decreases n,
{
    match n {
        NodeView::VarDecl { .. } => true,
        NodeView::Assign { .. } => true,
        NodeView::Call { .. } => false,
        NodeView::Loop { times, body } => all_quiet(body),
        NodeView::If { cond, then_body, else_body } => all_quiet(then_body) && match else_body {
            Some(e) => all_quiet(e),
            None => true,
        },
    }
}

/// Whether no statement of `nodes` calls a command.
pub open spec fn all_quiet(nodes: Seq<NodeView>) -> bool
    decreases nodes,
{
    forall|i: int| 0 <= i < nodes.len() ==> quiet(#[trigger] nodes[i])
}

proof fn lemma_quiet_node(
    n: NodeView,
    known1: Set<Seq<char>>,
    known2: Set<Seq<char>>,
    host1: Host,
    host2: Host,
    r: Run,
)
    requires
        quiet(n),
    ensures
        run_node(n, known1, host1, r) == run_node(n, known2, host2, r),
        run_node(n, known1, host1, r).calls == r.calls,
    decreases n, 0nat, 0nat,
{
    match n {
        NodeView::Loop { times, body } => {
            match eval(times, r.store) {
                Ok(ValueView::Num(k)) => {
                    lemma_quiet_repeat(body, count(k), known1, known2, host1, host2, r);
                },
                _ => {},
            }
        },
        NodeView::If { cond, then_body, else_body } => {
            lemma_quiet_seq(then_body, 0, known1, known2, host1, host2, r);
            match else_body {
                Some(e) => {
                    lemma_quiet_seq(e, 0, known1, known2, host1, host2, r);
                },
                None => {},
            }
        },
        _ => {},
    }
}

proof fn lemma_quiet_seq(
    nodes: Seq<NodeView>,
    i: nat,
    known1: Set<Seq<char>>,
    known2: Set<Seq<char>>,
    host1: Host,
    host2: Host,
    r: Run,
)
    requires
        all_quiet(nodes),
    ensures
        run_seq(nodes, i, known1, host1, r) == run_seq(nodes, i, known2, host2, r),
        run_seq(nodes, i, known1, host1, r).calls == r.calls,
    decreases nodes, 0nat, nodes.len() - i,
{
    if i >= nodes.len() || r.fault is Some {
    } else {
        lemma_quiet_node(nodes[i as int], known1, known2, host1, host2, r);
        lemma_quiet_seq(
            nodes,
            i + 1,
            known1,
            known2,
            host1,
            host2,
            run_node(nodes[i as int], known1, host1, r),
        );
    }
}

proof fn lemma_quiet_repeat(
    body: Seq<NodeView>,
    n: nat,
    known1: Set<Seq<char>>,
    known2: Set<Seq<char>>,
    host1: Host,
    host2: Host,
    r: Run,
)
    requires
        all_quiet(body),
    ensures
        repeat(body, n, known1, host1, r) == repeat(body, n, known2, host2, r),
        repeat(body, n, known1, host1, r).calls == r.calls,
    decreases body, n + 1, 0nat,
{
    if n == 0 || r.fault is Some {
    } else {
        lemma_quiet_seq(body, 0, known1, known2, host1, host2, r);
        lemma_quiet_repeat(
            body,
            (n - 1) as nat,
            known1,
            known2,
            host1,
            host2,
            run_seq(body, 0, known1, host1, r),
        );
    }
}

/// A program that calls no command runs the same way whatever the host does
/// and whichever commands are registered, and it makes no call.
pub proof fn lemma_quiet_run_needs_no_host(
    nodes: Seq<NodeView>,
    known1: Set<Seq<char>>,
    known2: Set<Seq<char>>,
    host1: Host,
    host2: Host,
    store: Store,
)
    requires
        all_quiet(nodes),
    ensures
        run(nodes, known1, host1, store) == run(nodes, known2, host2, store),
        run(nodes, known1, host1, store).calls.len() == 0,
{
    lemma_quiet_seq(nodes, 0, known1, known2, host1, host2, Run::start(store));
}

/// Determinism: where a text parses to a program that calls no command, two
/// runs of it on fresh variables end alike, with the same variables and the
/// same fault or none, and neither has any effect outside the variables.
pub proof fn lemma_quiet_source_is_deterministic(
    src: Seq<char>,
    known1: Set<Seq<char>>,
    known2: Set<Seq<char>>,
    host1: Host,
    host2: Host,
)
    requires
        program(lex(src), 0).result is Ok,
        all_quiet(program(lex(src), 0).result->Ok_0),
    ensures
        ({
            let nodes = program(lex(src), 0).result->Ok_0;
            let fresh = Map::<Seq<char>, ValueView>::empty();
            &&& run(nodes, known1, host1, fresh) == run(nodes, known2, host2, fresh)
            &&& run(nodes, known1, host1, fresh).calls.len() == 0
        }),
{
    let nodes = program(lex(src), 0).result->Ok_0;
    lemma_quiet_run_needs_no_host(
        nodes,
        known1,
        known2,
        host1,
        host2,
        Map::<Seq<char>, ValueView>::empty(),
    );
}

/// Of a program that calls no command, an executed run ends in exactly the
/// variables and the fault that the model gives, for any host.
pub proof fn lemma_quiet_run_is_exact(
    nodes: Seq<NodeView>,
    known: Set<Seq<char>>,
    host: Host,
    before: Store,
    after: Store,
    r: Result<(), Fault>,
)
    requires
        all_quiet(nodes),
        ran(nodes, known, before, after, r),
    ensures
        run(nodes, known, host, before).store == after,
        run(nodes, known, host, before).fault == fault_of(r),
{
    let witness = choose|h: Host|
        {
            let end = #[trigger] run(nodes, known, h, before);
            end.store == after && end.fault == fault_of(r)
        };
    lemma_quiet_run_needs_no_host(nodes, known, known, host, witness, before);
}

/// Nothing runs after a fault: a run that a fault has ended stays as it is,
/// whatever statements or rounds of a loop would follow.
pub proof fn lemma_nothing_runs_after_a_fault(
    nodes: Seq<NodeView>,
    i: nat,
    n: nat,
    known: Set<Seq<char>>,
    host: Host,
    r: Run,
)
    requires
        r.fault is Some,
    ensures
        run_seq(nodes, i, known, host, r) == r,
        repeat(nodes, n, known, host, r) == r,
{
}

/// The first fault ends the run: where a statement of a sequence ends in a
/// fault, the sequence ends as that statement did, with the variables as they
/// were at the fault.
pub proof fn lemma_first_fault_ends_the_run(
    nodes: Seq<NodeView>,
    i: nat,
    known: Set<Seq<char>>,
    host: Host,
    r: Run,
)
    requires
        i < nodes.len(),
        r.fault is None,
        run_node(nodes[i as int], known, host, r).fault is Some,
    ensures
        run_seq(nodes, i, known, host, r) == run_node(nodes[i as int], known, host, r),
{
    lemma_nothing_runs_after_a_fault(
        nodes,
        i + 1,
        0,
        known,
        host,
        run_node(nodes[i as int], known, host, r),
    );
}

/// A line break ends a statement exactly where the token before it could end
/// an operand: there the blanks with the line break among them are read as a
/// semicolon, and anywhere else they are passed over.
pub proof fn lemma_line_break_ends_statement(src: Seq<char>, pos: int)
    requires
        0 <= pos <= src.len(),
        has_newline(src, pos, run_end(src, pos, Class::Blank)),
    ensures
        next_token(src, pos, true) == (Scan {
            token: TokenView::Semicolon,
            next: run_end(src, pos, Class::Blank),
        }),
        next_token(src, pos, false) == next_token(src, run_end(src, pos, Class::Blank), false),
{
    let p = run_end(src, pos, Class::Blank);
    crate::lexer::lemma_run_end(src, pos, Class::Blank);
    crate::lexer::lemma_run_end(src, p, Class::Blank);
    assert(run_end(src, p, Class::Blank) == p);
}

/// The tokens of a text end with the end marker, and it stands nowhere else
/// among them.
pub proof fn lemma_lex_ends_with_one_end_marker(src: Seq<char>, pos: int, after_operand: bool)
    requires
        0 <= pos <= src.len(),
    ensures
        lex_from(src, pos, after_operand).len() >= 1,
        lex_from(src, pos, after_operand).last() == TokenView::Eof,
        forall|i: int|
            0 <= i < lex_from(src, pos, after_operand).len() - 1 ==> #[trigger] lex_from(
                src,
                pos,
                after_operand,
            )[i] != TokenView::Eof,
    decreases src.len() - pos,
{
    let s = next_token(src, pos, after_operand);
    lemma_next_token(src, pos, after_operand);
    if s.token != TokenView::Eof {
        lemma_lex_ends_with_one_end_marker(src, s.next, closes_operand(s.token));
    }
}

/// Statements are parsed up to the end marker and no further: where `items`
/// succeeds outside a block, the next token is the end marker.
pub proof fn lemma_items_end_at_the_end_marker(t: Seq<TokenView>, pos: nat, acc: Seq<NodeView>)
    ensures
        items(t, pos, false, acc).result is Ok ==> peek(t, pos + items(t, pos, false, acc).used)
            == TokenView::Eof,
    decreases left(t, pos),
{
    if peek(t, pos) == TokenView::Eof {
    } else {
        let s = stmt(t, pos);
        match s.result {
            Err(e) => {},
            Ok(n) => {
                if s.used > 0 {
                    lemma_items_end_at_the_end_marker(t, pos + s.used, acc.push(n));
                } else {
                    crate::parser::lemma_stmt_takes_tokens(t, pos);
                }
            },
        }
    }
}

/// No program is accepted with tokens left over: a parse that succeeds has
/// taken every token before the end marker, so that each of them is part of a
/// statement.
pub proof fn lemma_program_takes_all_tokens(t: Seq<TokenView>, pos: nat)
    ensures
        program(t, pos).result is Ok ==> peek(t, pos + program(t, pos).used) == TokenView::Eof,
{
    lemma_items_end_at_the_end_marker(t, pos, Seq::empty());
}

/// A number as `print` writes it is made of digits, and read as a number it is
/// the same number.
pub proof fn lemma_written_number_reads_back(n: nat)
    ensures
        decimal(digits(n)) == n,
        forall|i: int| 0 <= i < digits(n).len() ==> is_digit(#[trigger] digits(n)[i]),
    decreases n,
{
    assert(is_digit(digit_char(n % 10)));
    assert(digit_char(n % 10) as int - '0' as int == n % 10);
    if n < 10 {
        assert(digits(n).drop_last() =~= Seq::<char>::empty());
        assert(decimal(digits(n).drop_last()) == 0);
    } else {
        lemma_written_number_reads_back(n / 10);
        assert(digits(n).drop_last() =~= digits(n / 10));
    }
}

/// A color as `get_color` writes it is one that `color` reads, and it reads
/// the same red, green and blue.
pub proof fn lemma_written_color_reads_back(r: u8, g: u8, b: u8)
    ensures
        hex_color(hex_text(r, g, b)) == Some((r as int, g as int, b as int)),
{
    let s = hex_text(r, g, b);
    assert forall|d: int| 0 <= d < 16 implies hex_digit(#[trigger] hex_char(d)) == Some(d)
        && hex_char(d) != '#' && hex_char(d) != '+' && hex_char(d) != '-' by {}
    assert(hashes_end(s, 1) == 1);
    assert(hashes_end(s, 0) == 1);
    assert(hex_pair(s[1], s[2]) == Some(r as int));
    assert(hex_pair(s[3], s[4]) == Some(g as int));
    assert(hex_pair(s[5], s[6]) == Some(b as int));
}

} // verus!
