use scriptlet::commands;
use scriptlet::commands::print::render;
use scriptlet::commands::sleep::delay_ms;
use scriptlet::engine::Engine;
use scriptlet::functions::color::{color, parse_hex, target, ColorError, Target};
use scriptlet::functions::get_color::{get_color, point, to_hex, PixelError};
use scriptlet::functions::{Capture, Screen};
use scriptlet::interpreter::{Command, Context, Fault, Value};
use scriptlet::lexer::Lexer;
use scriptlet::parser::Parser;
use scriptlet::table::Table;

struct Named(&'static str);

impl Command for Named {
    fn call(&self, ctx: &mut Context, _args: Vec<Value>) -> Result<(), String> {
        ctx.set("called".to_string(), Value::Str(self.0.to_string()));
        Ok(())
    }
}

fn text(s: &str) -> Value {
    Value::Str(s.to_string())
}

fn called(e: &Engine<Named>) -> Option<Value> {
    e.context().get(&"called".to_string())
}

fn frame(width: usize, height: usize, pixels: &[(usize, usize, u8, u8, u8)]) -> Vec<u8> {
    let mut bytes = vec![0u8; width * height * 4];
    for (x, y, r, g, b) in pixels {
        let at = (y * width + x) * 4;
        bytes[at] = *b;
        bytes[at + 1] = *g;
        bytes[at + 2] = *r;
    }
    bytes
}

#[test]
fn print_writes_each_value_with_a_space_and_ends_the_line() {
    assert_eq!(render(&vec![]), "\n");
    assert_eq!(render(&vec![Value::Num(1)]), "1 \n");
    assert_eq!(
        render(&vec![Value::Num(-20), text("a b"), Value::Bool(true), Value::Bool(false)]),
        "-20 a b true false \n"
    );
}

#[test]
fn print_writes_numbers_in_decimal() {
    assert_eq!(render(&vec![Value::Num(0)]), "0 \n");
    assert_eq!(render(&vec![Value::Num(10)]), "10 \n");
    assert_eq!(render(&vec![Value::Num(9007)]), "9007 \n");
    assert_eq!(render(&vec![Value::Num(i64::MAX)]), "9223372036854775807 \n");
    assert_eq!(render(&vec![Value::Num(i64::MIN)]), "-9223372036854775808 \n");
}

#[test]
fn printed_number_lexes_to_the_same_number() {
    for n in [0i64, 7, 10, 12345, i64::MAX] {
        let line = render(&vec![Value::Num(n)]);
        let tokens = Lexer::new(&line).tokenize();
        assert_eq!(tokens[0], scriptlet::token::Token::Number(n));
    }
}

#[test]
fn sleep_waits_for_its_first_number() {
    assert_eq!(delay_ms(&vec![Value::Num(250)]), Some(250));
    assert_eq!(delay_ms(&vec![Value::Num(0), Value::Num(9)]), Some(0));
    assert_eq!(delay_ms(&vec![]), None);
    assert_eq!(delay_ms(&vec![text("1")]), None);
    assert_eq!(delay_ms(&vec![Value::Bool(true), Value::Num(1)]), None);
}

#[test]
fn sleep_takes_a_negative_number_as_unsigned() {
    assert_eq!(delay_ms(&vec![Value::Num(-1)]), Some(u64::MAX));
    assert_eq!(delay_ms(&vec![Value::Num(i64::MIN)]), Some(1u64 << 63));
}

#[test]
fn new_engine_knows_print_and_sleep() {
    let mut e = Engine::new(Named("print"), Named("sleep"));
    let nodes = Parser::new(Lexer::new("sleep(1);").tokenize()).parse().unwrap();
    assert_eq!(e.run(nodes), Ok(()));
    assert_eq!(called(&e), Some(text("sleep")));
    let nodes = Parser::new(Lexer::new("print(1);").tokenize()).parse().unwrap();
    assert_eq!(e.run(nodes), Ok(()));
    assert_eq!(called(&e), Some(text("print")));
    let nodes = Parser::new(Lexer::new("color(1);").tokenize()).parse().unwrap();
    assert_eq!(e.run(nodes), Err(Fault::UnknownCommand("color".to_string())));
}

#[test]
fn register_all_puts_both_commands_in() {
    let mut e = Engine::new(Named("old print"), Named("old sleep"));
    commands::register_all(&mut e, Named("new print"), Named("new sleep"));
    let nodes = Parser::new(Lexer::new("print(1);").tokenize()).parse().unwrap();
    assert_eq!(e.run(nodes), Ok(()));
    assert_eq!(called(&e), Some(text("new print")));
    let nodes = Parser::new(Lexer::new("sleep(1);").tokenize()).parse().unwrap();
    assert_eq!(e.run(nodes), Ok(()));
    assert_eq!(called(&e), Some(text("new sleep")));
}

#[test]
fn single_registers_use_their_names() {
    let mut e = Engine::new(Named("a"), Named("b"));
    commands::print::register(&mut e, Named("p"));
    commands::sleep::register(&mut e, Named("s"));
    let nodes = Parser::new(Lexer::new("sleep(1);").tokenize()).parse().unwrap();
    assert_eq!(e.run(nodes), Ok(()));
    assert_eq!(called(&e), Some(text("s")));
    let nodes = Parser::new(Lexer::new("print(1);").tokenize()).parse().unwrap();
    assert_eq!(e.run(nodes), Ok(()));
    assert_eq!(called(&e), Some(text("p")));
}

#[test]
fn screen_commands_register_under_their_names() {
    let mut map: Table<Named> = Table::new();
    scriptlet::functions::color::register(&mut map, Named("c"));
    scriptlet::functions::get_color::register(&mut map, Named("g"));
    assert_eq!(map.get(&"color".to_string()).map(|n| n.0), Some("c"));
    assert_eq!(map.get(&"get_color".to_string()).map(|n| n.0), Some("g"));
    assert_eq!(map.get(&"print".to_string()).map(|n| n.0), None);
}

#[test]
fn hex_colors() {
    assert_eq!(parse_hex("#ff0080"), Some((255, 0, 128)));
    assert_eq!(parse_hex("ff0080"), Some((255, 0, 128)));
    assert_eq!(parse_hex("##FFffAb"), Some((255, 255, 171)));
    assert_eq!(parse_hex("#000000"), Some((0, 0, 0)));
    assert_eq!(parse_hex("#0a0B0c"), Some((10, 11, 12)));
}

#[test]
fn hex_colors_that_are_none() {
    assert_eq!(parse_hex(""), None);
    assert_eq!(parse_hex("#"), None);
    assert_eq!(parse_hex("#fff"), None);
    assert_eq!(parse_hex("#ff00800"), None);
    assert_eq!(parse_hex("#gg0000"), None);
    assert_eq!(parse_hex("#ff 080"), None);
    assert_eq!(parse_hex("ff0080#"), None);
    assert_eq!(parse_hex("#ff008é"), None);
    assert_eq!(parse_hex("#éé00"), None);
    assert_eq!(parse_hex("#f+0080"), None);
}

#[test]
fn hex_part_may_carry_a_sign() {
    assert_eq!(parse_hex("#+f-1-0"), Some((15, -1, 0)));
    assert_eq!(parse_hex("#--0000"), None);
    assert_eq!(parse_hex("#+-0000"), None);
}

#[test]
fn color_arguments() {
    assert_eq!(
        target(&vec![text("#102030"), Value::Num(3), Value::Num(4), Value::Num(5)]),
        Ok(Target { red: 16, green: 32, blue: 48, x: 3, y: 4, tolerance: 5 })
    );
}

#[test]
fn color_argument_errors_come_in_order() {
    let good = vec![text("#102030"), Value::Num(3), Value::Num(4), Value::Num(5)];
    assert_eq!(target(&vec![]), Err(ColorError::Arity));
    assert_eq!(target(&good[..3].to_vec()), Err(ColorError::Arity));
    let mut five = good.clone();
    five.push(Value::Num(1));
    assert_eq!(target(&five), Err(ColorError::Arity));
    assert_eq!(
        target(&vec![Value::Num(1), text("x"), text("y"), text("t")]),
        Err(ColorError::Hex)
    );
    assert_eq!(
        target(&vec![text("red"), text("x"), text("y"), text("t")]),
        Err(ColorError::InvalidHex)
    );
    assert_eq!(
        target(&vec![text("#102030"), Value::Num(-1), Value::Num(-1), Value::Num(-1)]),
        Err(ColorError::X)
    );
    assert_eq!(
        target(&vec![text("#102030"), Value::Num(0), Value::Bool(true), Value::Num(-1)]),
        Err(ColorError::Y)
    );
    assert_eq!(
        target(&vec![text("#102030"), Value::Num(0), Value::Num(0), Value::Num(-1)]),
        Err(ColorError::Tolerance)
    );
}

#[test]
fn color_error_messages() {
    assert_eq!(ColorError::Arity.message(), "color expects 4 arguments");
    assert_eq!(ColorError::Hex.message(), "color expects hex string");
    assert_eq!(ColorError::InvalidHex.message(), "invalid hex color");
    assert_eq!(ColorError::X.message(), "color expects number x");
    assert_eq!(ColorError::Y.message(), "color expects number y");
    assert_eq!(ColorError::Tolerance.message(), "color expects tolerance");
}

#[test]
fn pixel_error_messages() {
    assert_eq!(PixelError::Arity.message(), "get_color expects 2 arguments");
    assert_eq!(PixelError::X.message(), "get_color expects number x");
    assert_eq!(PixelError::Y.message(), "get_color expects number y");
    assert_eq!(PixelError::Unreadable.message(), "failed to read pixel");
}

#[test]
fn new_screen_is_black() {
    let screen = Screen::new(3, 2).unwrap();
    assert_eq!(screen.len(), 24);
    assert_eq!(screen.pixel(0, 0), Some((0, 0, 0)));
    assert_eq!(screen.pixel(2, 1), Some((0, 0, 0)));
    assert_eq!(screen.pixel(3, 0), None);
    assert_eq!(screen.pixel(0, 2), None);
    assert!(Screen::new(usize::MAX, 2).is_none());
    assert!(Screen::new(usize::MAX / 4 + 1, 1).is_none());
    assert_eq!(Screen::new(0, 5).unwrap().len(), 0);
}

#[test]
fn screen_reads_red_green_blue_from_blue_green_red_bytes() {
    let mut screen = Screen::new(3, 2).unwrap();
    assert!(screen.refresh(Capture::Frame(frame(3, 2, &[(2, 1, 10, 20, 30), (0, 0, 1, 2, 3)]))));
    assert_eq!(screen.pixel(2, 1), Some((10, 20, 30)));
    assert_eq!(screen.pixel(0, 0), Some((1, 2, 3)));
    assert_eq!(screen.pixel(1, 1), Some((0, 0, 0)));
}

#[test]
fn screen_keeps_the_last_frame_when_none_is_ready() {
    let mut screen = Screen::new(2, 2).unwrap();
    assert!(screen.refresh(Capture::Frame(frame(2, 2, &[(1, 1, 9, 8, 7)]))));
    assert!(screen.refresh(Capture::NotReady));
    assert_eq!(screen.pixel(1, 1), Some((9, 8, 7)));
    assert!(!screen.refresh(Capture::Failed));
    assert_eq!(screen.pixel(1, 1), Some((9, 8, 7)));
}

#[test]
fn color_matches_within_tolerance() {
    let mut screen = Screen::new(4, 3).unwrap();
    let bytes = frame(4, 3, &[(1, 2, 100, 150, 200)]);
    let exact = Target { red: 100, green: 150, blue: 200, x: 1, y: 2, tolerance: 0 };
    assert!(color(&exact, &mut screen, Capture::Frame(bytes)));
    let off = Target { red: 105, green: 145, blue: 200, x: 1, y: 2, tolerance: 5 };
    assert!(color(&off, &mut screen, Capture::NotReady));
    let far = Target { red: 106, green: 150, blue: 200, x: 1, y: 2, tolerance: 5 };
    assert!(!color(&far, &mut screen, Capture::NotReady));
    let low = Target { red: 100, green: 150, blue: 194, x: 1, y: 2, tolerance: 5 };
    assert!(!color(&low, &mut screen, Capture::NotReady));
    let elsewhere = Target { red: 100, green: 150, blue: 200, x: 2, y: 1, tolerance: 0 };
    assert!(!color(&elsewhere, &mut screen, Capture::NotReady));
}

#[test]
fn color_is_false_off_screen_or_without_a_screen() {
    let mut screen = Screen::new(2, 2).unwrap();
    let black = Target { red: 0, green: 0, blue: 0, x: 0, y: 0, tolerance: 0 };
    assert!(color(&black, &mut screen, Capture::NotReady));
    assert!(!color(&black, &mut screen, Capture::Failed));
    let outside = Target { red: 0, green: 0, blue: 0, x: 2, y: 0, tolerance: 255 };
    assert!(!color(&outside, &mut screen, Capture::NotReady));
    let below = Target { red: 0, green: 0, blue: 0, x: 0, y: 2, tolerance: 255 };
    assert!(!color(&below, &mut screen, Capture::NotReady));
    let huge = Target { red: i64::MIN, green: 0, blue: 0, x: 0, y: 0, tolerance: i64::MAX };
    assert!(!color(&huge, &mut screen, Capture::NotReady));
}

#[test]
fn get_color_arguments() {
    assert_eq!(point(&vec![Value::Num(3), Value::Num(4)]), Ok((3, 4)));
    assert_eq!(point(&vec![Value::Num(3)]), Err(PixelError::Arity));
    assert_eq!(point(&vec![]), Err(PixelError::Arity));
    assert_eq!(point(&vec![text("3"), text("4")]), Err(PixelError::X));
    assert_eq!(point(&vec![Value::Num(-3), Value::Num(-4)]), Err(PixelError::X));
    assert_eq!(point(&vec![Value::Num(3), Value::Num(-4)]), Err(PixelError::Y));
    assert_eq!(point(&vec![Value::Num(3), Value::Bool(true)]), Err(PixelError::Y));
}

#[test]
fn get_color_writes_lower_case_hex() {
    assert_eq!(to_hex(255, 0, 128), "#ff0080");
    assert_eq!(to_hex(1, 10, 171), "#010aab");
    let mut screen = Screen::new(2, 2).unwrap();
    let bytes = frame(2, 2, &[(1, 0, 18, 52, 222)]);
    assert_eq!(get_color(1, 0, &mut screen, Capture::Frame(bytes)), Ok("#1234de".to_string()));
    assert_eq!(get_color(0, 1, &mut screen, Capture::NotReady), Ok("#000000".to_string()));
}

#[test]
fn get_color_fails_off_screen_or_without_a_screen() {
    let mut screen = Screen::new(2, 2).unwrap();
    assert_eq!(get_color(2, 0, &mut screen, Capture::NotReady), Err(PixelError::Unreadable));
    assert_eq!(get_color(0, 2, &mut screen, Capture::NotReady), Err(PixelError::Unreadable));
    assert_eq!(get_color(0, 0, &mut screen, Capture::Failed), Err(PixelError::Unreadable));
}

#[test]
fn written_color_reads_back() {
    for (r, g, b) in [(0u8, 0u8, 0u8), (255, 255, 255), (1, 35, 171), (16, 9, 250)] {
        assert_eq!(parse_hex(&to_hex(r, g, b)), Some((r as i64, g as i64, b as i64)));
    }
}
