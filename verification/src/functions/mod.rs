//! Commands that look at the screen: what they compute once the host has
//! handed them a frame.

pub mod color;
pub mod get_color;

use vstd::prelude::*;

verus! {

/// What the host got when it asked the screen for a frame.
pub enum Capture {
    /// A new frame: 4 bytes for each pixel, blue, green, red and one more,
    /// row after row from the top.
    Frame(Vec<u8>),
    /// No new frame yet; the last one is still good.
    NotReady,
    /// The screen could not be read.
    Failed,
}

/// The screen as it was last seen.
pub struct Screen {
    width: usize,
    height: usize,
    buffer: Vec<u8>,
}

/// Where the pixel in column `x` of row `y` starts in the bytes of a frame
/// that is `width` pixels wide.
pub open spec fn offset(width: int, x: int, y: int) -> int {
    y * (width * 4) + x * 4
}

/// The bytes after a capture: those of a new frame, else the ones before.
pub open spec fn refreshed(before: Seq<u8>, capture: Capture) -> Seq<u8> {
    match capture {
        Capture::Frame(bytes) => bytes@,
        _ => before,
    }
}

proof fn lemma_offset_in_frame(width: int, height: int, x: int, y: int)
    requires
        0 <= x < width,
        0 <= y < height,
    ensures
        0 <= offset(width, x, y),
        offset(width, x, y) + 4 <= width * height * 4,
        0 <= y * (width * 4) <= width * height * 4,
        0 <= width * 4 <= width * height * 4,
{
    assert(y * (width * 4) + x * 4 + 4 <= width * height * 4 && 0 <= y * (width * 4) && width * 4
        <= width * height * 4) by (nonlinear_arith)
        requires
            0 <= x < width,
            0 <= y < height,
    ;
}

impl Screen {
    #[verifier::type_invariant]
    spec fn sized(&self) -> bool {
        self.buffer@.len() == self.width * self.height * 4
    }

    /// How many pixels a row has.
    pub closed spec fn width(&self) -> int {
        self.width as int
    }

    /// How many rows there are.
    pub closed spec fn height(&self) -> int {
        self.height as int
    }

    /// The bytes of the last frame.
    pub closed spec fn bytes(&self) -> Seq<u8> {
        self.buffer@
    }

    /// A black screen of the given size; `None` where its bytes cannot be
    /// counted in a `usize`.
    pub fn new(width: usize, height: usize) -> (r: Option<Screen>)
        ensures
            r is Some <==> width * height * 4 <= usize::MAX,
            r matches Some(s) ==> {
                &&& s.width() == width
                &&& s.height() == height
                &&& s.bytes().len() == width * height * 4
                &&& forall|i: int| 0 <= i < s.bytes().len() ==> s.bytes()[i] == 0
            },
    {
        let area = match width.checked_mul(height) {
            Some(area) => area,
            None => {
                assert(width * height * 4 > usize::MAX) by (nonlinear_arith)
                    requires
                        width * height > usize::MAX,
                ;
                return None;
            },
        };
        let len = match area.checked_mul(4) {
            Some(len) => len,
            None => {
                return None;
            },
        };
        let buffer: Vec<u8> = vec![0u8; len];
        Some(Screen { width, height, buffer })
    }

    /// How many bytes a frame of this screen has.
    pub fn len(&self) -> (n: usize)
        ensures
            n == self.bytes().len(),
            n == self.width() * self.height() * 4,
    {
        proof {
            use_type_invariant(self);
        }
        self.buffer.len()
    }

    /// Takes in what the host captured. A new frame replaces the last one,
    /// and where none is ready the last one stays. `false` where the screen
    /// could not be read.
    pub fn refresh(&mut self, capture: Capture) -> (r: bool)
        requires
            capture matches Capture::Frame(bytes) ==> bytes@.len() == old(self).bytes().len(),
        ensures
            final(self).width() == old(self).width(),
            final(self).height() == old(self).height(),
            final(self).bytes() == refreshed(old(self).bytes(), capture),
            r == !(capture is Failed),
    {
        proof {
            use_type_invariant(&*self);
        }
        match capture {
            Capture::Frame(bytes) => {
                self.buffer = bytes;
                true
            },
            Capture::NotReady => true,
            Capture::Failed => false,
        }
    }

    /// The red, green and blue of the pixel in column `x` of row `y`; `None`
    /// where the screen has no such pixel.
    pub fn pixel(&self, x: u64, y: u64) -> (r: Option<(u8, u8, u8)>)
        ensures
            r is Some <==> x < self.width() && y < self.height(),
            r matches Some(rgb) ==> {
                let at = offset(self.width(), x as int, y as int);
                &&& 0 <= at && at + 2 < self.bytes().len()
                &&& rgb.0 == self.bytes()[at + 2]
                &&& rgb.1 == self.bytes()[at + 1]
                &&& rgb.2 == self.bytes()[at]
            },
    {
        proof {
            use_type_invariant(self);
        }
        if x >= self.width as u64 || y >= self.height as u64 {
            return None;
        }
        proof {
            lemma_offset_in_frame(self.width as int, self.height as int, x as int, y as int);
            assert(self.buffer@.len() == self.buffer.len());
        }
        let stride = self.width * 4;
        let idx = (y as usize) * stride + (x as usize) * 4;
        if idx + 2 >= self.buffer.len() {
            return None;
        }
        let b = self.buffer[idx];
        let g = self.buffer[idx + 1];
        let r = self.buffer[idx + 2];
        Some((r, g, b))
    }
}

} // verus!
