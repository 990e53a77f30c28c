use crate::functions::color::natural;
use crate::functions::{offset, refreshed, Capture, Screen};
use crate::interpreter::{values_view, Command, Value, ValueView};
use crate::table::Table;
use vstd::prelude::*;

verus! {

/// Why `get_color` has no color to give. The command reports it and the run
/// goes on.
#[derive(Clone, Copy, Debug, PartialEq, Eq, Structural)]
pub enum PixelError {
    /// Not exactly two arguments.
    Arity,
    /// The first argument is no number from 0 up.
    X,
    /// The second argument is no number from 0 up.
    Y,
    /// The screen could not be read, or it has no such pixel.
    Unreadable,
}

/// The words in which an error is reported.
pub open spec fn message_text(e: PixelError) -> Seq<char> {
    match e {
        PixelError::Arity => "get_color expects 2 arguments"@,
        PixelError::X => "get_color expects number x"@,
        PixelError::Y => "get_color expects number y"@,
        PixelError::Unreadable => "failed to read pixel"@,
    }
}

impl PixelError {
    /// The words in which the error is reported.
    pub fn message(&self) -> (s: String)
        ensures
            s@ == message_text(*self),
    {
        match self {
            PixelError::Arity => "get_color expects 2 arguments".to_owned(),
            PixelError::X => "get_color expects number x".to_owned(),
            PixelError::Y => "get_color expects number y".to_owned(),
            PixelError::Unreadable => "failed to read pixel".to_owned(),
        }
    }
}

/// The column and the row that the arguments of `get_color` name. The
/// arguments are looked at in order and the first that does not fit gives the
/// error.
pub open spec fn point_of(args: Seq<ValueView>) -> Result<(u64, u64), PixelError> {
    if args.len() != 2 {
        Err(PixelError::Arity)
    } else {
        match natural(args[0]) {
            None => Err(PixelError::X),
            Some(x) => match natural(args[1]) {
                None => Err(PixelError::Y),
                Some(y) => Ok((x as u64, y as u64)),
            },
        }
    }
}

/// Reads the arguments of `get_color`.
pub fn point(args: &Vec<Value>) -> (r: Result<(u64, u64), PixelError>)
    ensures
        r == point_of(values_view(args@)),
{
    if args.len() != 2 {
        return Err(PixelError::Arity);
    }
    let x = match &args[0] {
        Value::Num(n) => if *n >= 0 {
            *n as u64
        } else {
            return Err(PixelError::X);
        },
        _ => {
            return Err(PixelError::X);
        },
    };
    let y = match &args[1] {
        Value::Num(n) => if *n >= 0 {
            *n as u64
        } else {
            return Err(PixelError::Y);
        },
        _ => {
            return Err(PixelError::Y);
        },
    };
    Ok((x, y))
}

/// The character that writes a value below 16 in base 16, in lower case.
pub open spec fn hex_char(d: int) -> char {
    if d == 0 {
        '0'
    } else if d == 1 {
        '1'
    } else if d == 2 {
        '2'
    } else if d == 3 {
        '3'
    } else if d == 4 {
        '4'
    } else if d == 5 {
        '5'
    } else if d == 6 {
        '6'
    } else if d == 7 {
        '7'
    } else if d == 8 {
        '8'
    } else if d == 9 {
        '9'
    } else if d == 10 {
        'a'
    } else if d == 11 {
        'b'
    } else if d == 12 {
        'c'
    } else if d == 13 {
        'd'
    } else if d == 14 {
        'e'
    } else {
        'f'
    }
}

/// A color as text: a number sign, then two characters for each of red, green
/// and blue.
pub open spec fn hex_text(r: u8, g: u8, b: u8) -> Seq<char> {
    seq![
        '#',
        hex_char(r as int / 16),
        hex_char(r as int % 16),
        hex_char(g as int / 16),
        hex_char(g as int % 16),
        hex_char(b as int / 16),
        hex_char(b as int % 16),
    ]
}

fn hex_of(d: u8) -> (c: char)
    requires
        d < 16,
    ensures
        c == hex_char(d as int),
{
    if d == 0 {
        '0'
    } else if d == 1 {
        '1'
    } else if d == 2 {
        '2'
    } else if d == 3 {
        '3'
    } else if d == 4 {
        '4'
    } else if d == 5 {
        '5'
    } else if d == 6 {
        '6'
    } else if d == 7 {
        '7'
    } else if d == 8 {
        '8'
    } else if d == 9 {
        '9'
    } else if d == 10 {
        'a'
    } else if d == 11 {
        'b'
    } else if d == 12 {
        'c'
    } else if d == 13 {
        'd'
    } else if d == 14 {
        'e'
    } else {
        'f'
    }
}

/// The color as text.
pub fn to_hex(r: u8, g: u8, b: u8) -> (s: String)
    ensures
        s@ == hex_text(r, g, b),
{
    let mut s = String::new();
    s.push('#');
    s.push(hex_of(r / 16));
    s.push(hex_of(r % 16));
    s.push(hex_of(g / 16));
    s.push(hex_of(g % 16));
    s.push(hex_of(b / 16));
    s.push(hex_of(b % 16));
    assert(s@ =~= hex_text(r, g, b));
    s
}

/// What `get_color` gives for a frame of the given size: the color of the
/// pixel as text, where the screen has that pixel.
pub open spec fn color_at(x: u64, y: u64, width: int, height: int, bytes: Seq<u8>) -> Option<
    Seq<char>,
> {
    if x < width && y < height {
        let at = offset(width, x as int, y as int);
        Some(hex_text(bytes[at + 2], bytes[at + 1], bytes[at]))
    } else {
        None
    }
}

/// The color of the pixel in column `x` of row `y`, from what the host
/// captured: takes the capture in, then looks at the pixel.
pub fn get_color(x: u64, y: u64, screen: &mut Screen, capture: Capture) -> (r: Result<
    String,
    PixelError,
>)
    requires
        capture matches Capture::Frame(bytes) ==> bytes@.len() == old(screen).bytes().len(),
    ensures
        final(screen).width() == old(screen).width(),
        final(screen).height() == old(screen).height(),
        final(screen).bytes() == refreshed(old(screen).bytes(), capture),
        ({
            let seen = color_at(
                x,
                y,
                old(screen).width(),
                old(screen).height(),
                refreshed(old(screen).bytes(), capture),
            );
            match r {
                Ok(s) => !(capture is Failed) && seen == Some(s@),
                Err(e) => e == PixelError::Unreadable && (capture is Failed || seen is None),
            }
        }),
{
    if !screen.refresh(capture) {
        return Err(PixelError::Unreadable);
    }
    match screen.pixel(x, y) {
        None => Err(PixelError::Unreadable),
        Some((r, g, b)) => Ok(to_hex(r, g, b)),
    }
}

/// Puts `handler` into `map` as the command `get_color`.
pub fn register<H: Command>(map: &mut Table<H>, handler: H)
    ensures
        final(map)@ == old(map)@.insert("get_color"@, handler),
{
    map.insert("get_color".to_owned(), handler);
}

} // verus!
