use crate::engine::Engine;
use crate::interpreter::{values_view, Command, Value, ValueView};
use vstd::prelude::*;
use vstd::string::StringExecFns;

verus! {

/// Registers `handler` as the command `print`.
pub fn register<H: Command>(engine: &mut Engine<H>, handler: H)
    ensures
        final(engine).commands() == old(engine).commands().insert("print"@, handler),
        final(engine).store() == old(engine).store(),
{
    engine.register("print", handler);
}

/// The character that writes the digit `d`.
pub open spec fn digit_char(d: nat) -> char {
    if d == 0 {
        '0'
    } else if d == 1 {
        '1'
    } else if d == 2 {
        '2'
    } else if d == 3 {
        '3'
    } else if d == 4 {
        '4'
    } else if d == 5 {
        '5'
    } else if d == 6 {
        '6'
    } else if d == 7 {
        '7'
    } else if d == 8 {
        '8'
    } else {
        '9'
    }
}

/// A natural number in decimal, without leading zeros.
pub open spec fn digits(n: nat) -> Seq<char>
    decreases n,
{
    if n < 10 {
        seq![digit_char(n)]
    } else {
        digits(n / 10).push(digit_char(n % 10))
    }
}

/// A value as `print` writes it: a number in decimal, with a minus sign where
/// it is negative; a text as it is; a truth value as `true` or `false`.
pub open spec fn text(v: ValueView) -> Seq<char> {
    match v {
        ValueView::Num(n) => if n < 0 {
            seq!['-'] + digits((-n) as nat)
        } else {
            digits(n as nat)
        },
        ValueView::Str(s) => s,
        ValueView::Bool(b) => if b {
            seq!['t', 'r', 'u', 'e']
        } else {
            seq!['f', 'a', 'l', 's', 'e']
        },
    }
}

/// The line that `print` writes for the arguments from index `i` on: each
/// value with a space after it, then a line break.
pub open spec fn line_from(args: Seq<ValueView>, i: nat) -> Seq<char>
    decreases args.len() - i,
{
    if i >= args.len() {
        seq!['\n']
    } else {
        text(args[i as int]) + seq![' '] + line_from(args, i + 1)
    }
}

/// The line that `print` writes.
pub open spec fn line(args: Seq<ValueView>) -> Seq<char> {
    line_from(args, 0)
}

fn digit_of(d: u64) -> (c: char)
    requires
        d < 10,
    ensures
        c == digit_char(d as nat),
{
    if d == 0 {
        '0'
    } else if d == 1 {
        '1'
    } else if d == 2 {
        '2'
    } else if d == 3 {
        '3'
    } else if d == 4 {
        '4'
    } else if d == 5 {
        '5'
    } else if d == 6 {
        '6'
    } else if d == 7 {
        '7'
    } else if d == 8 {
        '8'
    } else {
        '9'
    }
}

fn push_digits(s: &mut String, n: u64)
    ensures
        final(s)@ == old(s)@ + digits(n as nat),
    decreases n,
{
    if n >= 10 {
        push_digits(s, n / 10);
    }
    s.push(digit_of(n % 10));
    assert(s@ =~= old(s)@ + digits(n as nat));
}

fn push_value(s: &mut String, v: &Value)
    ensures
        final(s)@ == old(s)@ + text(v@),
{
    match v {
        Value::Num(n) => {
            let n: i64 = *n;
            if n < 0 {
                s.push('-');
                push_digits(s, (-(n + 1)) as u64 + 1);
                assert(s@ =~= old(s)@ + text(v@));
            } else {
                push_digits(s, n as u64);
            }
        },
        Value::Str(t) => {
            s.append(t.as_str());
        },
        Value::Bool(b) => {
            proof {
                reveal_strlit("true");
                reveal_strlit("false");
                assert("true"@ =~= seq!['t', 'r', 'u', 'e']);
                assert("false"@ =~= seq!['f', 'a', 'l', 's', 'e']);
            }
            if *b {
                s.append("true");
            } else {
                s.append("false");
            }
        },
    }
}

/// The line that `print` writes for `args`.
pub fn render(args: &Vec<Value>) -> (s: String)
    ensures
        s@ == line(values_view(args@)),
{
    let mut s = String::new();
    let mut i: usize = 0;
    while i < args.len()
        invariant
            i <= args.len(),
            line(values_view(args@)) == s@ + line_from(values_view(args@), i as nat),
        decreases args.len() - i,
    {
        let ghost before = s@;
        push_value(&mut s, &args[i]);
        s.push(' ');
        assert(s@ + line_from(values_view(args@), (i + 1) as nat) =~= before + line_from(
            values_view(args@),
            i as nat,
        ));
        i += 1;
    }
    s.push('\n');
    assert(s@ =~= line(values_view(args@)));
    s
}

} // verus!
