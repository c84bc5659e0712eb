//! Board squares: a file `x` and a rank `y`, each 0 to 7 on the board.

use vstd::prelude::*;
use crate::bitboard::{bit, single, group_bits};
use crate::text::{skip_whitespace};

verus! {

broadcast use group_bits;

#[derive(Clone, Copy, PartialEq, Eq, Structural, Debug, Hash)]
pub struct Square {
    /// File, A to H as 0 to 7.
    pub x: i8,
    /// Rank, 1 to 8 as 0 to 7.
    pub y: i8,
}

/// `v` held in the range of `i8`.
pub open spec fn clamp_i8(v: int) -> int {
    if v < -128 {
        -128
    } else if v > 127 {
        127
    } else {
        v
    }
}

/// The bitboard index of file `x`, rank `y`.
pub open spec fn index_of(x: int, y: int) -> int {
    y * 8 + x
}

pub open spec fn on_board(x: int, y: int) -> bool {
    0 <= x < 8 && 0 <= y < 8
}

/// The file of a letter A-H (either case), or -1.
pub open spec fn file_of(c: char) -> int {
    if 'A' <= c <= 'H' {
        c as int - 'A' as int
    } else if 'a' <= c <= 'h' {
        c as int - 'a' as int
    } else {
        -1
    }
}

/// The rank of a digit 1-8, or -1.
pub open spec fn rank_of(c: char) -> int {
    if '1' <= c <= '8' {
        c as int - '1' as int
    } else {
        -1
    }
}

/// The square named by algebraic notation: leading whitespace is skipped, then a file
/// letter and a rank digit are read; a coordinate that is missing or not valid is -1.
pub open spec fn notation_square(s: Seq<char>) -> Square {
    let i = skip_whitespace(s, 0);
    Square {
        x: if i < s.len() { file_of(s[i as int]) as i8 } else { -1i8 },
        y: if i + 1 < s.len() { rank_of(s[i + 1 as int]) as i8 } else { -1i8 },
    }
}

/// The square that `From<i8>` gives: the index split with truncating division.
pub open spec fn square_of_index(v: i8) -> Square {
    if v >= 0 {
        Square { x: (v % 8) as i8, y: (v / 8) as i8 }
    } else {
        Square { x: (-((-v) % 8)) as i8, y: (-((-v) / 8)) as i8 }
    }
}

impl Square {
    pub open spec fn on_board(self) -> bool {
        on_board(self.x as int, self.y as int)
    }

    pub open spec fn index(self) -> int {
        index_of(self.x as int, self.y as int)
    }

    /// The square offset by `(dx, dy)`, each coordinate held in the range of `i8`.
    pub open spec fn offset(self, dx: int, dy: int) -> Square {
        Square { x: clamp_i8(self.x + dx) as i8, y: clamp_i8(self.y + dy) as i8 }
    }

    pub fn to_index(&self) -> (r: i8)
        requires
            -128 <= self.x + self.y * 8 <= 127,
        ensures
            r == self.index(),
    {
        (self.x as i16 + self.y as i16 * 8) as i8
    }

    /// The file letter (upper case) and the rank digit.
    pub fn to_notation(&self) -> (r: String)
        requires
            self.on_board(),
        ensures
            r@ == seq![('A' as u8 + self.x) as char, ('1' as u8 + self.y) as char],
    {
        let mut s = String::new();
        let f = ('A' as u8 + self.x as u8) as char;
        let r = ('1' as u8 + self.y as u8) as char;
        crate::text::push_char(&mut s, f);
        crate::text::push_char(&mut s, r);
        s
    }

    /// The bitboard of this square; empty when it is off the board.
    pub fn to_bitmap(&self) -> (r: u64)
        ensures
            self.on_board() ==> r == single(self.index()),
            !self.on_board() ==> r == 0,
            forall|i: int| #[trigger] bit(r, i) == (self.on_board() && i == self.index()),
    {
        if self.x < 0 || self.x >= 8 || self.y < 0 || self.y >= 8 {
            0
        } else {
            let i: i8 = self.y * 8 + self.x;
            1u64 << (i as u64)
        }
    }

    pub fn to_tuple(&self) -> (r: (i8, i8))
        ensures
            r == (self.x, self.y),
    {
        (self.x, self.y)
    }

    /// The square `dx` files and `dy` ranks away; it may lie off the board.
    pub fn moved(&self, dx: i8, dy: i8) -> (r: Square)
        ensures
            r == self.offset(dx as int, dy as int),
    {
        Square { x: clamp_add(self.x, dx), y: clamp_add(self.y, dy) }
    }
}

fn clamp_add(a: i8, b: i8) -> (r: i8)
    ensures
        r == clamp_i8(a + b),
{
    let s: i16 = a as i16 + b as i16;
    if s < -128 {
        -128
    } else if s > 127 {
        127
    } else {
        s as i8
    }
}

impl From<i8> for Square {
    fn from(value: i8) -> (r: Square) {
        if value >= 0 {
            Square { x: value % 8, y: value / 8 }
        } else {
            let n: i16 = -(value as i16);
            let x: i16 = -(n % 8);
            let y: i16 = -(n / 8);
            Square { x: x as i8, y: y as i8 }
        }
    }
}

impl vstd::std_specs::convert::FromSpecImpl<i8> for Square {
    open spec fn obeys_from_spec() -> bool {
        true
    }

    open spec fn from_spec(v: i8) -> Square {
        square_of_index(v)
    }
}

impl From<(i8, i8)> for Square {
    fn from(pos: (i8, i8)) -> (r: Square) {
        Square { x: pos.0, y: pos.1 }
    }
}

impl vstd::std_specs::convert::FromSpecImpl<(i8, i8)> for Square {
    open spec fn obeys_from_spec() -> bool {
        true
    }

    open spec fn from_spec(v: (i8, i8)) -> Square {
        Square { x: v.0, y: v.1 }
    }
}

fn file_value(c: char) -> (r: i8)
    ensures
        r == file_of(c),
{
    if 'A' <= c && c <= 'H' {
        (c as u32 - 'A' as u32) as i8
    } else if 'a' <= c && c <= 'h' {
        (c as u32 - 'a' as u32) as i8
    } else {
        -1
    }
}

fn rank_value(c: char) -> (r: i8)
    ensures
        r == rank_of(c),
{
    if '1' <= c && c <= '8' {
        (c as u32 - '1' as u32) as i8
    } else {
        -1
    }
}

impl<'a> From<&'a str> for Square {
    fn from(pos: &'a str) -> (r: Square) {
        let n = pos.unicode_len();
        let i = crate::text::skip_whitespace_at(pos, 0);
        let x: i8 = if i < n {
            file_value(pos.get_char(i))
        } else {
            -1
        };
        let y: i8 = if i < n && i + 1 < n {
            rank_value(pos.get_char(i + 1))
        } else {
            -1
        };
        Square { x, y }
    }
}

impl<'a> vstd::std_specs::convert::FromSpecImpl<&'a str> for Square {
    open spec fn obeys_from_spec() -> bool {
        true
    }

    open spec fn from_spec(v: &'a str) -> Square {
        notation_square(v@)
    }
}

} // verus!
