use crate::functions::{offset, refreshed, Capture, Screen};
use crate::interpreter::{values_view, Command, Value, ValueView};
use crate::table::Table;
use vstd::prelude::*;

verus! {

/// Why the arguments of `color` are no question to ask of the screen. The
/// command reports it and the run goes on.
#[derive(Clone, Copy, Debug, PartialEq, Eq, Structural)]
pub enum ColorError {
    /// Not exactly four arguments.
    Arity,
    /// The first argument is no text.
    Hex,
    /// The first argument does not write a color.
    InvalidHex,
    /// The second argument is no number from 0 up.
    X,
    /// The third argument is no number from 0 up.
    Y,
    /// The fourth argument is no number from 0 up.
    Tolerance,
}

/// The words in which an error is reported.
pub open spec fn message_text(e: ColorError) -> Seq<char> {
    match e {
        ColorError::Arity => "color expects 4 arguments"@,
        ColorError::Hex => "color expects hex string"@,
        ColorError::InvalidHex => "invalid hex color"@,
        ColorError::X => "color expects number x"@,
        ColorError::Y => "color expects number y"@,
        ColorError::Tolerance => "color expects tolerance"@,
    }
}

impl ColorError {
    /// The words in which the error is reported.
    pub fn message(&self) -> (s: String)
        ensures
            s@ == message_text(*self),
    {
        match self {
            ColorError::Arity => "color expects 4 arguments".to_owned(),
            ColorError::Hex => "color expects hex string".to_owned(),
            ColorError::InvalidHex => "invalid hex color".to_owned(),
            ColorError::X => "color expects number x".to_owned(),
            ColorError::Y => "color expects number y".to_owned(),
            ColorError::Tolerance => "color expects tolerance".to_owned(),
        }
    }
}

/// The value of a hexadecimal digit, in either case.
pub open spec fn hex_digit(c: char) -> Option<int> {
    if '0' <= c && c <= '9' {
        Some(c as int - '0' as int)
    } else if 'a' <= c && c <= 'f' {
        Some(c as int - 'a' as int + 10)
    } else if 'A' <= c && c <= 'F' {
        Some(c as int - 'A' as int + 10)
    } else {
        None
    }
}

/// The number that two characters write in base 16. In place of the first
/// digit a sign may stand, and then the number has one digit.
pub open spec fn hex_pair(a: char, b: char) -> Option<int> {
    match hex_digit(b) {
        None => None,
        Some(low) => if a == '+' {
            Some(low)
        } else if a == '-' {
            Some(-low)
        } else {
            match hex_digit(a) {
                Some(high) => Some(high * 16 + low),
                None => None,
            }
        },
    }
}

/// Where the number signs that start at `i` end.
pub open spec fn hashes_end(s: Seq<char>, i: int) -> int
    decreases s.len() - i,
{
    if 0 <= i < s.len() && s[i] == '#' {
        hashes_end(s, i + 1)
    } else {
        i
    }
}

/// The red, green and blue that a text writes: after any number signs at its
/// start, exactly six characters, two for each part.
pub open spec fn hex_color(s: Seq<char>) -> Option<(int, int, int)> {
    let p = hashes_end(s, 0);
    if s.len() - p != 6 {
        None
    } else {
        match (
            hex_pair(s[p], s[p + 1]),
            hex_pair(s[p + 2], s[p + 3]),
            hex_pair(s[p + 4], s[p + 5]),
        ) {
            (Some(r), Some(g), Some(b)) => Some((r, g, b)),
            _ => None,
        }
    }
}

fn hex_value(c: char) -> (r: Option<i64>)
    ensures
        match r {
            Some(v) => hex_digit(c) == Some(v as int) && 0 <= v < 16,
            None => hex_digit(c) is None,
        },
{
    if c >= '0' && c <= '9' {
        Some((c as u32 - '0' as u32) as i64)
    } else if c >= 'a' && c <= 'f' {
        Some((c as u32 - 'a' as u32) as i64 + 10)
    } else if c >= 'A' && c <= 'F' {
        Some((c as u32 - 'A' as u32) as i64 + 10)
    } else {
        None
    }
}

fn pair_value(a: char, b: char) -> (r: Option<i64>)
    ensures
        match r {
            Some(v) => hex_pair(a, b) == Some(v as int) && -15 <= v <= 255,
            None => hex_pair(a, b) is None,
        },
{
    let low = match hex_value(b) {
        Some(low) => low,
        None => {
            return None;
        },
    };
    if a == '+' {
        Some(low)
    } else if a == '-' {
        Some(-low)
    } else {
        match hex_value(a) {
            Some(high) => Some(high * 16 + low),
            None => None,
        }
    }
}

/// The red, green and blue that `s` writes, if it writes a color.
pub fn parse_hex(s: &str) -> (r: Option<(i64, i64, i64)>)
    ensures
        match r {
            Some(c) => hex_color(s@) == Some((c.0 as int, c.1 as int, c.2 as int)),
            None => hex_color(s@) is None,
        },
{
    let mut h: Vec<char> = Vec::new();
    let chars = s.chars();
    for c in it: chars
        invariant
            h@ == it.seq().take(it.index()),
    {
        h.push(c);
    }
    assert(h@ == s@);
    let mut p: usize = 0;
    while p < h.len() && h[p] == '#'
        invariant
            p <= h.len(),
            hashes_end(h@, p as int) == hashes_end(h@, 0),
        decreases h.len() - p,
    {
        p += 1;
    }
    if h.len() - p != 6 {
        return None;
    }
    let r = match pair_value(h[p], h[p + 1]) {
        Some(r) => r,
        None => {
            return None;
        },
    };
    let g = match pair_value(h[p + 2], h[p + 3]) {
        Some(g) => g,
        None => {
            return None;
        },
    };
    let b = match pair_value(h[p + 4], h[p + 5]) {
        Some(b) => b,
        None => {
            return None;
        },
    };
    Some((r, g, b))
}

/// A question to ask of the screen: is the pixel at `x`, `y` this color, give
/// or take `tolerance` in each part?
#[derive(Clone, Copy, Debug, PartialEq, Eq, Structural)]
pub struct Target {
    pub red: i64,
    pub green: i64,
    pub blue: i64,
    pub x: u64,
    pub y: u64,
    pub tolerance: i64,
}

/// The number in `v` where it is one and not negative.
pub open spec fn natural(v: ValueView) -> Option<int> {
    match v {
        ValueView::Num(n) => if n >= 0 {
            Some(n)
        } else {
            None
        },
        _ => None,
    }
}

/// The question that the arguments of `color` ask: a color as text, a column,
/// a row and a tolerance. The arguments are looked at in that order and the
/// first that does not fit gives the error.
pub open spec fn target_of(args: Seq<ValueView>) -> Result<Target, ColorError> {
    if args.len() != 4 {
        Err(ColorError::Arity)
    } else {
        match args[0] {
            ValueView::Str(s) => match hex_color(s) {
                None => Err(ColorError::InvalidHex),
                Some(c) => match natural(args[1]) {
                    None => Err(ColorError::X),
                    Some(x) => match natural(args[2]) {
                        None => Err(ColorError::Y),
                        Some(y) => match natural(args[3]) {
                            None => Err(ColorError::Tolerance),
                            Some(tolerance) => Ok(
                                Target {
                                    red: c.0 as i64,
                                    green: c.1 as i64,
                                    blue: c.2 as i64,
                                    x: x as u64,
                                    y: y as u64,
                                    tolerance: tolerance as i64,
                                },
                            ),
                        },
                    },
                },
            },
            _ => Err(ColorError::Hex),
        }
    }
}

fn natural_of(v: &Value) -> (r: Option<i64>)
    ensures
        match r {
            Some(n) => natural(v@) == Some(n as int),
            None => natural(v@) is None,
        },
{
    match v {
        Value::Num(n) => if *n >= 0 {
            Some(*n)
        } else {
            None
        },
        _ => None,
    }
}

/// Reads the arguments of `color`.
pub fn target(args: &Vec<Value>) -> (r: Result<Target, ColorError>)
    ensures
        r == target_of(values_view(args@)),
{
    if args.len() != 4 {
        return Err(ColorError::Arity);
    }
    let c = match &args[0] {
        Value::Str(s) => match parse_hex(s.as_str()) {
            Some(c) => c,
            None => {
                return Err(ColorError::InvalidHex);
            },
        },
        _ => {
            return Err(ColorError::Hex);
        },
    };
    let x = match natural_of(&args[1]) {
        Some(x) => x,
        None => {
            return Err(ColorError::X);
        },
    };
    let y = match natural_of(&args[2]) {
        Some(y) => y,
        None => {
            return Err(ColorError::Y);
        },
    };
    let tolerance = match natural_of(&args[3]) {
        Some(t) => t,
        None => {
            return Err(ColorError::Tolerance);
        },
    };
    Ok(Target { red: c.0, green: c.1, blue: c.2, x: x as u64, y: y as u64, tolerance })
}

/// Whether `seen` is within `tolerance` of `wanted`.
pub open spec fn near(seen: int, wanted: int, tolerance: int) -> bool {
    seen - wanted <= tolerance && seen - wanted >= -tolerance
}

/// Whether a frame of the given size answers yes: the pixel is on the screen
/// and each of its parts is near the one asked for.
pub open spec fn matches(t: Target, width: int, height: int, bytes: Seq<u8>) -> bool {
    &&& t.x < width
    &&& t.y < height
    &&& near(bytes[offset(width, t.x as int, t.y as int) + 2] as int, t.red as int, t.tolerance as int)
    &&& near(
        bytes[offset(width, t.x as int, t.y as int) + 1] as int,
        t.green as int,
        t.tolerance as int,
    )
    &&& near(bytes[offset(width, t.x as int, t.y as int)] as int, t.blue as int, t.tolerance as int)
}

fn is_near(seen: u8, wanted: i64, tolerance: i64) -> (r: bool)
    ensures
        r == near(seen as int, wanted as int, tolerance as int),
{
    let d: i128 = seen as i128 - wanted as i128;
    let t: i128 = tolerance as i128;
    d <= t && d >= -t
}

/// Answers the question `target` from what the host captured: takes the
/// capture in, then looks at the pixel. `false` where the screen could not be
/// read or has no such pixel.
pub fn color(target: &Target, screen: &mut Screen, capture: Capture) -> (r: bool)
    requires
        capture matches Capture::Frame(bytes) ==> bytes@.len() == old(screen).bytes().len(),
    ensures
        final(screen).width() == old(screen).width(),
        final(screen).height() == old(screen).height(),
        final(screen).bytes() == refreshed(old(screen).bytes(), capture),
        r == (!(capture is Failed) && matches(
            *target,
            old(screen).width(),
            old(screen).height(),
            refreshed(old(screen).bytes(), capture),
        )),
{
    if !screen.refresh(capture) {
        return false;
    }
    match screen.pixel(target.x, target.y) {
        None => false,
        Some((r, g, b)) => is_near(r, target.red, target.tolerance) && is_near(
            g,
            target.green,
            target.tolerance,
        ) && is_near(b, target.blue, target.tolerance),
    }
}

/// Puts `handler` into `map` as the command `color`.
pub fn register<H: Command>(map: &mut Table<H>, handler: H)
    ensures
        final(map)@ == old(map)@.insert("color"@, handler),
{
    map.insert("color".to_owned(), handler);
}

} // verus!
