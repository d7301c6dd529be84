//! Geometry of a 240 x 320 panel that is addressed in its native orientation
//! and drawn on in any of four rotations.

use vstd::prelude::*;

verus! {

/// Width of the panel in its native orientation.
pub const TFT_WIDTH: u16 = 240;

/// Height of the panel in its native orientation.
pub const TFT_HEIGHT: u16 = 320;

/// Entry mode: blue before red in a pixel word.
pub const EM_BGR: u16 = 0x1000;

/// Entry mode: the address counter runs along the vertical direction.
pub const EM_AM: u16 = 0x0008;

/// Entry mode: the horizontal address counts up.
pub const EM_ID0: u16 = 0x0010;

/// Entry mode: the vertical address counts up.
pub const EM_ID1: u16 = 0x0020;

/// Screen rotation, counter-clockwise.
#[derive(Debug, Clone, Copy, PartialEq, Eq, Structural)]
pub enum Rotation {
    /// As the panel is addressed.
    R0,
    /// A quarter turn.
    R90,
    /// Upside down.
    R180,
    /// Three quarter turns.
    R270,
}

/// What this module refuses.
#[derive(Debug, Clone, Copy, PartialEq, Eq, Structural)]
pub enum LcdError {
    /// A number that names no rotation.
    InvalidRotationId,
}

/// A position, on the screen as drawn on or on the panel as addressed.
#[derive(Debug, Clone, Copy, PartialEq, Eq, Structural)]
pub struct LcdPoint {
    pub x: i32,
    pub y: i32,
}

/// A rectangle of the panel by its corners, both included.
#[derive(Debug, Clone, Copy, PartialEq, Eq, Structural)]
pub struct LcdWindow {
    pub min_x: i32,
    pub min_y: i32,
    pub max_x: i32,
    pub max_y: i32,
}

/// Where the screen position `(x, y)` lies in a panel window `width` wide and
/// `height` high, as a pair of mathematical integers.
pub open spec fn rotated(rotation: Rotation, x: int, y: int, width: int, height: int) -> (int, int) {
    match rotation {
        Rotation::R0 => (x, y),
        Rotation::R90 => (width - 1 - y, x),
        Rotation::R180 => (width - 1 - x, height - 1 - y),
        Rotation::R270 => (y, height - 1 - x),
    }
}

/// A value that a position can take.
pub open spec fn fits_i32(v: int) -> bool {
    i32::MIN <= v <= i32::MAX
}

/// The lesser of two integers.
pub open spec fn lesser(a: int, b: int) -> int {
    if a <= b {
        a
    } else {
        b
    }
}

/// The greater of two integers.
pub open spec fn greater(a: int, b: int) -> int {
    if a >= b {
        a
    } else {
        b
    }
}

/// How many write pulses fill `n` pixels once the first was written as a
/// word: the `n - 1` that are left, and as many more as `n - 1` leaves over
/// when divided by four.
pub open spec fn fill_pulses_of(n: int) -> int {
    (n - 1) + (n - 1) % 4
}

/// The rotation that a number names: quarter turns, 0 to 3.
pub open spec fn rotation_of(value: u32) -> Result<Rotation, LcdError> {
    if value == 0 {
        Ok(Rotation::R0)
    } else if value == 1 {
        Ok(Rotation::R90)
    } else if value == 2 {
        Ok(Rotation::R180)
    } else if value == 3 {
        Ok(Rotation::R270)
    } else {
        Err(LcdError::InvalidRotationId)
    }
}

impl Rotation {
    /// The rotation with the number `value`, for the numbers 0 to 3; any
    /// other number is refused.
    pub fn try_from(value: u32) -> (r: Result<Rotation, LcdError>)
        ensures
            r == rotation_of(value),
    {
        match value {
            0 => Ok(Rotation::R0),
            1 => Ok(Rotation::R90),
            2 => Ok(Rotation::R180),
            3 => Ok(Rotation::R270),
            _ => Err(LcdError::InvalidRotationId),
        }
    }

    /// Whether the screen is turned on its side.
    pub open spec fn sideways(self) -> bool {
        self == Rotation::R90 || self == Rotation::R270
    }

    /// Width and height of the screen as drawn on.
    pub fn size(self) -> (s: (u32, u32))
        ensures
            self.sideways() ==> s == (TFT_HEIGHT as u32, TFT_WIDTH as u32),
            !self.sideways() ==> s == (TFT_WIDTH as u32, TFT_HEIGHT as u32),
    {
        let w = TFT_WIDTH as u32;
        let h = TFT_HEIGHT as u32;
        match self {
            Rotation::R0 => (w, h),
            Rotation::R90 => (h, w),
            Rotation::R180 => (w, h),
            Rotation::R270 => (h, w),
        }
    }

    /// The bottom right position of the screen as drawn on.
    pub fn max_btm_right(self) -> (p: LcdPoint)
        ensures
            self.sideways() ==> p.x == TFT_HEIGHT - 1 && p.y == TFT_WIDTH - 1,
            !self.sideways() ==> p.x == TFT_WIDTH - 1 && p.y == TFT_HEIGHT - 1,
    {
        let w = TFT_WIDTH as i32 - 1;
        let h = TFT_HEIGHT as i32 - 1;
        match self {
            Rotation::R0 => LcdPoint { x: w, y: h },
            Rotation::R90 => LcdPoint { x: h, y: w },
            Rotation::R180 => LcdPoint { x: w, y: h },
            Rotation::R270 => LcdPoint { x: h, y: w },
        }
    }

    /// The entry-mode word that makes the panel's address counter run the
    /// way this rotation draws.
    pub fn entry_mode(self) -> (word: u16)
        ensures
            self == Rotation::R0 ==> word == 0x1030,
            self == Rotation::R90 ==> word == 0x1028,
            self == Rotation::R180 ==> word == 0x1000,
            self == Rotation::R270 ==> word == 0x1018,
    {
        let bits: u16 = match self {
            Rotation::R0 => EM_ID0 | EM_ID1,
            Rotation::R90 => EM_AM | EM_ID1,
            Rotation::R180 => 0,
            Rotation::R270 => EM_AM | EM_ID0,
        };
        assert(0x0010u16 | 0x0020u16 | 0x1000u16 == 0x1030u16) by (bit_vector);
        assert(0x0008u16 | 0x0020u16 | 0x1000u16 == 0x1028u16) by (bit_vector);
        assert(0u16 | 0x1000u16 == 0x1000u16) by (bit_vector);
        assert(0x0008u16 | 0x0010u16 | 0x1000u16 == 0x1018u16) by (bit_vector);
        bits | EM_BGR
    }

    /// Where the screen position `p` lies in a panel window `width` wide
    /// and `height` high.
    pub fn lcd_window_point(self, p: LcdPoint, width: u32, height: u32) -> (q: LcdPoint)
        requires
            width <= i32::MAX,
            height <= i32::MAX,
            fits_i32(rotated(self, p.x as int, p.y as int, width as int, height as int).0),
            fits_i32(rotated(self, p.x as int, p.y as int, width as int, height as int).1),
        ensures
            (q.x as int, q.y as int) == rotated(
                self,
                p.x as int,
                p.y as int,
                width as int,
                height as int,
            ),
    {
        let w = width as i32;
        let h = height as i32;
        match self {
            Rotation::R0 => p,
            Rotation::R90 => LcdPoint { x: (w - 1) - p.y, y: p.x },
            Rotation::R180 => LcdPoint { x: (w - 1) - p.x, y: (h - 1) - p.y },
            Rotation::R270 => LcdPoint { x: p.y, y: (h - 1) - p.x },
        }
    }

    /// Whether [`lcd_window_point`](Self::lcd_window_point) can place `p`.
    pub fn can_place(self, p: LcdPoint, width: u32, height: u32) -> (b: bool)
        ensures
            b == {
                &&& width <= i32::MAX
                &&& height <= i32::MAX
                &&& fits_i32(rotated(self, p.x as int, p.y as int, width as int, height as int).0)
                &&& fits_i32(rotated(self, p.x as int, p.y as int, width as int, height as int).1)
            },
    {
        if width > i32::MAX as u32 || height > i32::MAX as u32 {
            return false;
        }
        let w = width as i64;
        let h = height as i64;
        let (x, y) = match self {
            Rotation::R0 => (p.x as i64, p.y as i64),
            Rotation::R90 => (w - 1 - p.y as i64, p.x as i64),
            Rotation::R180 => (w - 1 - p.x as i64, h - 1 - p.y as i64),
            Rotation::R270 => (p.y as i64, h - 1 - p.x as i64),
        };
        i32::MIN as i64 <= x && x <= i32::MAX as i64 && i32::MIN as i64 <= y && y <= i32::MAX as i64
    }

    /// Where the screen position `p` lies on the whole panel.
    pub fn lcd_point(self, p: LcdPoint) -> (q: LcdPoint)
        requires
            fits_i32(rotated(self, p.x as int, p.y as int, TFT_WIDTH as int, TFT_HEIGHT as int).0),
            fits_i32(rotated(self, p.x as int, p.y as int, TFT_WIDTH as int, TFT_HEIGHT as int).1),
        ensures
            (q.x as int, q.y as int) == rotated(
                self,
                p.x as int,
                p.y as int,
                TFT_WIDTH as int,
                TFT_HEIGHT as int,
            ),
    {
        self.lcd_window_point(p, TFT_WIDTH as u32, TFT_HEIGHT as u32)
    }
}

/// The panel window between two panel positions, whichever way round they
/// come.
pub fn window_between(a: LcdPoint, b: LcdPoint) -> (w: LcdWindow)
    ensures
        w.min_x == lesser(a.x as int, b.x as int),
        w.min_y == lesser(a.y as int, b.y as int),
        w.max_x == greater(a.x as int, b.x as int),
        w.max_y == greater(a.y as int, b.y as int),
{
    LcdWindow {
        min_x: if a.x <= b.x {
            a.x
        } else {
            b.x
        },
        min_y: if a.y <= b.y {
            a.y
        } else {
            b.y
        },
        max_x: if a.x >= b.x {
            a.x
        } else {
            b.x
        },
        max_y: if a.y >= b.y {
            a.y
        } else {
            b.y
        },
    }
}

/// How many write pulses fill a window of `width` by `height` pixels after
/// the first pixel was written as a word.
pub fn fill_pulses(width: u32, height: u32) -> (n: u32)
    requires
        1 <= width * height,
        fill_pulses_of(width * height) <= u32::MAX,
    ensures
        n == fill_pulses_of(width * height),
{
    assert(width * height <= u32::MAX) by (nonlinear_arith)
        requires
            1 <= width * height,
            (width * height - 1) + (width * height - 1) % 4 <= u32::MAX,
    ;
    let pixels = width * height;
    let left = pixels - 1;
    left + left % 4
}

} // verus!
