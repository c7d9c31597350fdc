//! The HUD's built-in 5x7 bitmap font.
//!
//! Each glyph is seven rows, top to bottom; a row uses its low five bits,
//! bit 4 being the left-most column. Lowercase letters share the uppercase
//! shapes, and any character without a glyph is drawn as a small box.
use vstd::prelude::*;

verus! {

/// Glyph cell width in pixels.
pub const GLYPH_WIDTH: usize = 5;

/// Glyph cell height in pixels.
pub const GLYPH_HEIGHT: usize = 7;

/// Rows of the glyph for `c`, top to bottom.
pub open spec fn glyph_rows(c: char) -> Seq<u8> {
    match c {
        ' ' => seq![0x00u8, 0x00, 0x00, 0x00, 0x00, 0x00, 0x00],
        '0' => seq![0x0Eu8, 0x11, 0x13, 0x15, 0x19, 0x11, 0x0E],
        '1' => seq![0x04u8, 0x0C, 0x04, 0x04, 0x04, 0x04, 0x0E],
        '2' => seq![0x0Eu8, 0x11, 0x01, 0x02, 0x04, 0x08, 0x1F],
        '3' => seq![0x1Fu8, 0x02, 0x04, 0x02, 0x01, 0x11, 0x0E],
        '4' => seq![0x02u8, 0x06, 0x0A, 0x12, 0x1F, 0x02, 0x02],
        '5' => seq![0x1Fu8, 0x10, 0x1E, 0x01, 0x01, 0x11, 0x0E],
        '6' => seq![0x06u8, 0x08, 0x10, 0x1E, 0x11, 0x11, 0x0E],
        '7' => seq![0x1Fu8, 0x01, 0x02, 0x04, 0x08, 0x08, 0x08],
        '8' => seq![0x0Eu8, 0x11, 0x11, 0x0E, 0x11, 0x11, 0x0E],
        '9' => seq![0x0Eu8, 0x11, 0x11, 0x0F, 0x01, 0x02, 0x0C],
        'A' | 'a' => seq![0x0Eu8, 0x11, 0x11, 0x1F, 0x11, 0x11, 0x11],
        'B' | 'b' => seq![0x1Eu8, 0x11, 0x11, 0x1E, 0x11, 0x11, 0x1E],
        'C' | 'c' => seq![0x0Eu8, 0x11, 0x10, 0x10, 0x10, 0x11, 0x0E],
        'D' | 'd' => seq![0x1Cu8, 0x12, 0x11, 0x11, 0x11, 0x12, 0x1C],
        'E' | 'e' => seq![0x1Fu8, 0x10, 0x10, 0x1E, 0x10, 0x10, 0x1F],
        'F' | 'f' => seq![0x1Fu8, 0x10, 0x10, 0x1E, 0x10, 0x10, 0x10],
        'G' | 'g' => seq![0x0Eu8, 0x11, 0x10, 0x17, 0x11, 0x11, 0x0F],
        'H' | 'h' => seq![0x11u8, 0x11, 0x11, 0x1F, 0x11, 0x11, 0x11],
        'I' | 'i' => seq![0x0Eu8, 0x04, 0x04, 0x04, 0x04, 0x04, 0x0E],
        'J' | 'j' => seq![0x07u8, 0x02, 0x02, 0x02, 0x02, 0x12, 0x0C],
        'K' | 'k' => seq![0x11u8, 0x12, 0x14, 0x18, 0x14, 0x12, 0x11],
        'L' | 'l' => seq![0x10u8, 0x10, 0x10, 0x10, 0x10, 0x10, 0x1F],
        'M' | 'm' => seq![0x11u8, 0x1B, 0x15, 0x15, 0x11, 0x11, 0x11],
        'N' | 'n' => seq![0x11u8, 0x19, 0x15, 0x13, 0x11, 0x11, 0x11],
        'O' | 'o' => seq![0x0Eu8, 0x11, 0x11, 0x11, 0x11, 0x11, 0x0E],
        'P' | 'p' => seq![0x1Eu8, 0x11, 0x11, 0x1E, 0x10, 0x10, 0x10],
        'Q' | 'q' => seq![0x0Eu8, 0x11, 0x11, 0x11, 0x15, 0x12, 0x0D],
        'R' | 'r' => seq![0x1Eu8, 0x11, 0x11, 0x1E, 0x14, 0x12, 0x11],
        'S' | 's' => seq![0x0Fu8, 0x10, 0x10, 0x0E, 0x01, 0x01, 0x1E],
        'T' | 't' => seq![0x1Fu8, 0x04, 0x04, 0x04, 0x04, 0x04, 0x04],
        'U' | 'u' => seq![0x11u8, 0x11, 0x11, 0x11, 0x11, 0x11, 0x0E],
        'V' | 'v' => seq![0x11u8, 0x11, 0x11, 0x11, 0x11, 0x0A, 0x04],
        'W' | 'w' => seq![0x11u8, 0x11, 0x11, 0x15, 0x15, 0x1B, 0x11],
        'X' | 'x' => seq![0x11u8, 0x11, 0x0A, 0x04, 0x0A, 0x11, 0x11],
        'Y' | 'y' => seq![0x11u8, 0x11, 0x0A, 0x04, 0x04, 0x04, 0x04],
        'Z' | 'z' => seq![0x1Fu8, 0x01, 0x02, 0x04, 0x08, 0x10, 0x1F],
        ':' => seq![0x00u8, 0x06, 0x06, 0x00, 0x06, 0x06, 0x00],
        '.' => seq![0x00u8, 0x00, 0x00, 0x00, 0x00, 0x06, 0x06],
        ',' => seq![0x00u8, 0x00, 0x00, 0x00, 0x06, 0x06, 0x04],
        '/' => seq![0x01u8, 0x01, 0x02, 0x04, 0x08, 0x10, 0x10],
        '-' => seq![0x00u8, 0x00, 0x00, 0x1F, 0x00, 0x00, 0x00],
        '+' => seq![0x00u8, 0x04, 0x04, 0x1F, 0x04, 0x04, 0x00],
        '=' => seq![0x00u8, 0x00, 0x1F, 0x00, 0x1F, 0x00, 0x00],
        '(' => seq![0x02u8, 0x04, 0x08, 0x08, 0x08, 0x04, 0x02],
        ')' => seq![0x08u8, 0x04, 0x02, 0x02, 0x02, 0x04, 0x08],
        '<' => seq![0x02u8, 0x04, 0x08, 0x10, 0x08, 0x04, 0x02],
        '>' => seq![0x08u8, 0x04, 0x02, 0x01, 0x02, 0x04, 0x08],
        '%' => seq![0x19u8, 0x19, 0x02, 0x04, 0x08, 0x13, 0x13],
        '?' => seq![0x0Eu8, 0x11, 0x01, 0x02, 0x04, 0x00, 0x04],
        '_' => seq![0x00u8, 0x00, 0x00, 0x00, 0x00, 0x00, 0x1F],
        _ => seq![0x00u8, 0x0E, 0x0A, 0x0A, 0x0A, 0x0E, 0x00],
    }
}

/// The 7-row bitmap for a character (bit 4 of each row is the left-most column).
pub fn glyph_bits(c: char) -> (r: [u8; GLYPH_HEIGHT])
    ensures
        r@ == glyph_rows(c),
{
    match c {
        ' ' => [0x00, 0x00, 0x00, 0x00, 0x00, 0x00, 0x00],
        '0' => [0x0E, 0x11, 0x13, 0x15, 0x19, 0x11, 0x0E],
        '1' => [0x04, 0x0C, 0x04, 0x04, 0x04, 0x04, 0x0E],
        '2' => [0x0E, 0x11, 0x01, 0x02, 0x04, 0x08, 0x1F],
        '3' => [0x1F, 0x02, 0x04, 0x02, 0x01, 0x11, 0x0E],
        '4' => [0x02, 0x06, 0x0A, 0x12, 0x1F, 0x02, 0x02],
        '5' => [0x1F, 0x10, 0x1E, 0x01, 0x01, 0x11, 0x0E],
        '6' => [0x06, 0x08, 0x10, 0x1E, 0x11, 0x11, 0x0E],
        '7' => [0x1F, 0x01, 0x02, 0x04, 0x08, 0x08, 0x08],
        '8' => [0x0E, 0x11, 0x11, 0x0E, 0x11, 0x11, 0x0E],
        '9' => [0x0E, 0x11, 0x11, 0x0F, 0x01, 0x02, 0x0C],
        'A' | 'a' => [0x0E, 0x11, 0x11, 0x1F, 0x11, 0x11, 0x11],
        'B' | 'b' => [0x1E, 0x11, 0x11, 0x1E, 0x11, 0x11, 0x1E],
        'C' | 'c' => [0x0E, 0x11, 0x10, 0x10, 0x10, 0x11, 0x0E],
        'D' | 'd' => [0x1C, 0x12, 0x11, 0x11, 0x11, 0x12, 0x1C],
        'E' | 'e' => [0x1F, 0x10, 0x10, 0x1E, 0x10, 0x10, 0x1F],
        'F' | 'f' => [0x1F, 0x10, 0x10, 0x1E, 0x10, 0x10, 0x10],
        'G' | 'g' => [0x0E, 0x11, 0x10, 0x17, 0x11, 0x11, 0x0F],
        'H' | 'h' => [0x11, 0x11, 0x11, 0x1F, 0x11, 0x11, 0x11],
        'I' | 'i' => [0x0E, 0x04, 0x04, 0x04, 0x04, 0x04, 0x0E],
        'J' | 'j' => [0x07, 0x02, 0x02, 0x02, 0x02, 0x12, 0x0C],
        'K' | 'k' => [0x11, 0x12, 0x14, 0x18, 0x14, 0x12, 0x11],
        'L' | 'l' => [0x10, 0x10, 0x10, 0x10, 0x10, 0x10, 0x1F],
        'M' | 'm' => [0x11, 0x1B, 0x15, 0x15, 0x11, 0x11, 0x11],
        'N' | 'n' => [0x11, 0x19, 0x15, 0x13, 0x11, 0x11, 0x11],
        'O' | 'o' => [0x0E, 0x11, 0x11, 0x11, 0x11, 0x11, 0x0E],
        'P' | 'p' => [0x1E, 0x11, 0x11, 0x1E, 0x10, 0x10, 0x10],
        'Q' | 'q' => [0x0E, 0x11, 0x11, 0x11, 0x15, 0x12, 0x0D],
        'R' | 'r' => [0x1E, 0x11, 0x11, 0x1E, 0x14, 0x12, 0x11],
        'S' | 's' => [0x0F, 0x10, 0x10, 0x0E, 0x01, 0x01, 0x1E],
        'T' | 't' => [0x1F, 0x04, 0x04, 0x04, 0x04, 0x04, 0x04],
        'U' | 'u' => [0x11, 0x11, 0x11, 0x11, 0x11, 0x11, 0x0E],
        'V' | 'v' => [0x11, 0x11, 0x11, 0x11, 0x11, 0x0A, 0x04],
        'W' | 'w' => [0x11, 0x11, 0x11, 0x15, 0x15, 0x1B, 0x11],
        'X' | 'x' => [0x11, 0x11, 0x0A, 0x04, 0x0A, 0x11, 0x11],
        'Y' | 'y' => [0x11, 0x11, 0x0A, 0x04, 0x04, 0x04, 0x04],
        'Z' | 'z' => [0x1F, 0x01, 0x02, 0x04, 0x08, 0x10, 0x1F],
        ':' => [0x00, 0x06, 0x06, 0x00, 0x06, 0x06, 0x00],
        '.' => [0x00, 0x00, 0x00, 0x00, 0x00, 0x06, 0x06],
        ',' => [0x00, 0x00, 0x00, 0x00, 0x06, 0x06, 0x04],
        '/' => [0x01, 0x01, 0x02, 0x04, 0x08, 0x10, 0x10],
        '-' => [0x00, 0x00, 0x00, 0x1F, 0x00, 0x00, 0x00],
        '+' => [0x00, 0x04, 0x04, 0x1F, 0x04, 0x04, 0x00],
        '=' => [0x00, 0x00, 0x1F, 0x00, 0x1F, 0x00, 0x00],
        '(' => [0x02, 0x04, 0x08, 0x08, 0x08, 0x04, 0x02],
        ')' => [0x08, 0x04, 0x02, 0x02, 0x02, 0x04, 0x08],
        '<' => [0x02, 0x04, 0x08, 0x10, 0x08, 0x04, 0x02],
        '>' => [0x08, 0x04, 0x02, 0x01, 0x02, 0x04, 0x08],
        '%' => [0x19, 0x19, 0x02, 0x04, 0x08, 0x13, 0x13],
        '?' => [0x0E, 0x11, 0x01, 0x02, 0x04, 0x00, 0x04],
        '_' => [0x00, 0x00, 0x00, 0x00, 0x00, 0x00, 0x1F],
        _ => [0x00, 0x0E, 0x0A, 0x0A, 0x0A, 0x0E, 0x00],
    }
}

/// Every glyph is exactly seven rows tall and every row fits in the five
/// pixel columns (no bit above bit 4 is ever set).
pub proof fn lemma_glyph_rows_fit(c: char)
    ensures
        glyph_rows(c).len() == GLYPH_HEIGHT,
        forall|r: int| 0 <= r < GLYPH_HEIGHT ==> #[trigger] glyph_rows(c)[r] <= 0x1F,
{
}

/// A lowercase ASCII letter is drawn with the shape of its uppercase letter.
pub proof fn lemma_lowercase_shares_uppercase(c: char)
    requires
        'a' <= c <= 'z',
    ensures
        glyph_rows(c) == glyph_rows(((c as u32) - 32) as char),
{
}

} // verus!
