use vstd::prelude::*;

verus! {

/// The eight peg colors.
#[derive(Debug, Clone, Copy, PartialEq, Eq, Hash, Structural)]
pub enum Color {
    Red,
    Green,
    Blue,
    Purple,
    Orange,
    Yellow,
    White,
    Cyan,
}

/// Number of distinct colors.
pub const COLOR_COUNT: usize = 8;

/// The color that stands for each index in `0..8`.
pub open spec fn spec_color_at(i: int) -> Color {
    if i == 0 {
        Color::Red
    } else if i == 1 {
        Color::Green
    } else if i == 2 {
        Color::Blue
    } else if i == 3 {
        Color::Purple
    } else if i == 4 {
        Color::Orange
    } else if i == 5 {
        Color::Yellow
    } else if i == 6 {
        Color::White
    } else {
        Color::Cyan
    }
}

/// The color named by a one-letter code, upper or lower case.
pub open spec fn spec_letter_color(c: char) -> Option<Color> {
    if c == 'R' || c == 'r' {
        Some(Color::Red)
    } else if c == 'G' || c == 'g' {
        Some(Color::Green)
    } else if c == 'B' || c == 'b' {
        Some(Color::Blue)
    } else if c == 'P' || c == 'p' {
        Some(Color::Purple)
    } else if c == 'O' || c == 'o' {
        Some(Color::Orange)
    } else if c == 'Y' || c == 'y' {
        Some(Color::Yellow)
    } else if c == 'W' || c == 'w' {
        Some(Color::White)
    } else if c == 'C' || c == 'c' {
        Some(Color::Cyan)
    } else {
        None
    }
}

/// The upper-case letter that names a color.
pub open spec fn spec_color_letter(c: Color) -> char {
    match c {
        Color::Red => 'R',
        Color::Green => 'G',
        Color::Blue => 'B',
        Color::Purple => 'P',
        Color::Orange => 'O',
        Color::Yellow => 'Y',
        Color::White => 'W',
        Color::Cyan => 'C',
    }
}

impl Color {
    /// The color at index `i` of the alphabet; any `i` of 7 or more gives `Cyan`.
    pub fn from_index(i: usize) -> (r: Color)
        ensures
            r == spec_color_at(i as int),
    {
        match i {
            0 => Color::Red,
            1 => Color::Green,
            2 => Color::Blue,
            3 => Color::Purple,
            4 => Color::Orange,
            5 => Color::Yellow,
            6 => Color::White,
            _ => Color::Cyan,
        }
    }

    /// Reads a one-letter color code, ignoring case.
    pub fn from_letter(c: char) -> (r: Option<Color>)
        ensures
            r == spec_letter_color(c),
    {
        match c {
            'R' | 'r' => Some(Color::Red),
            'G' | 'g' => Some(Color::Green),
            'B' | 'b' => Some(Color::Blue),
            'P' | 'p' => Some(Color::Purple),
            'O' | 'o' => Some(Color::Orange),
            'Y' | 'y' => Some(Color::Yellow),
            'W' | 'w' => Some(Color::White),
            'C' | 'c' => Some(Color::Cyan),
            _ => None,
        }
    }

    /// The upper-case letter of this color.
    pub fn letter(&self) -> (r: char)
        ensures
            r == spec_color_letter(*self),
            spec_letter_color(r) == Some(*self),
    {
        match self {
            Color::Red => 'R',
            Color::Green => 'G',
            Color::Blue => 'B',
            Color::Purple => 'P',
            Color::Orange => 'O',
            Color::Yellow => 'Y',
            Color::White => 'W',
            Color::Cyan => 'C',
        }
    }
}

/// All eight colors, each once.
pub fn all_colors() -> (r: Vec<Color>)
    ensures
        r@.len() == COLOR_COUNT,
        forall|c: Color| #[trigger] r@.contains(c),
{
    let r = vec![
        Color::Blue,
        Color::Cyan,
        Color::Green,
        Color::Orange,
        Color::Purple,
        Color::Red,
        Color::White,
        Color::Yellow,
    ];
    assert forall|c: Color| #[trigger] r@.contains(c) by {
        match c {
            Color::Blue => assert(r@[0] == c),
            Color::Cyan => assert(r@[1] == c),
            Color::Green => assert(r@[2] == c),
            Color::Orange => assert(r@[3] == c),
            Color::Purple => assert(r@[4] == c),
            Color::Red => assert(r@[5] == c),
            Color::White => assert(r@[6] == c),
            Color::Yellow => assert(r@[7] == c),
        }
    }
    r
}

} // verus!
