use ring_world::hud::{glyph_bits, GLYPH_HEIGHT, GLYPH_WIDTH};

/// Plot a glyph into a 5-wide x 7-tall boolean grid using the SAME bit
/// convention as push_text(): bit 4 = left-most column (col 0).
fn plot(c: char) -> [[bool; GLYPH_WIDTH]; GLYPH_HEIGHT] {
    let g = glyph_bits(c);
    let mut grid = [[false; GLYPH_WIDTH]; GLYPH_HEIGHT];
    for row in 0..GLYPH_HEIGHT {
        for col in 0..GLYPH_WIDTH {
            let mask = 1u8 << (GLYPH_WIDTH - 1 - col);
            grid[row][col] = g[row] & mask != 0;
        }
    }
    grid
}

/// Render a `&[&str]` of 5-char rows ('#'/'.') into the expected grid.
fn expect(rows: [&str; GLYPH_HEIGHT]) -> [[bool; GLYPH_WIDTH]; GLYPH_HEIGHT] {
    let mut grid = [[false; GLYPH_WIDTH]; GLYPH_HEIGHT];
    for (r, line) in rows.iter().enumerate() {
        let chars: Vec<char> = line.chars().collect();
        assert_eq!(chars.len(), GLYPH_WIDTH, "row {:?} must be 5 chars", line);
        for (col, ch) in chars.iter().enumerate() {
            grid[r][col] = *ch == '#';
        }
    }
    grid
}

#[test]
fn glyph_dimensions_are_constant() {
    assert_eq!(GLYPH_WIDTH, 5);
    assert_eq!(GLYPH_HEIGHT, 7);
    let g = glyph_bits('A');
    assert_eq!(g.len(), GLYPH_HEIGHT);
}

#[test]
fn space_glyph_is_blank() {
    assert_eq!(glyph_bits(' '), [0u8; GLYPH_HEIGHT]);
}

#[test]
fn all_glyph_rows_fit_in_five_bits() {
    // The reader only inspects bits 4..0; any glyph with a bit set above
    // bit 4 was authored with the wrong (garbled) convention.
    for c in " 0123456789ABCDEFGHIJKLMNOPQRSTUVWXYZ:.,/-+=()<>%?_".chars() {
        let g = glyph_bits(c);
        for (r, &row) in g.iter().enumerate() {
            assert!(
                row <= 0x1F,
                "glyph {:?} row {} = {:#04x} uses bits above bit 4",
                c, r, row
            );
        }
    }
}

#[test]
fn known_glyphs_have_set_pixels() {
    for c in "0123456789ABCDEFGHIJKLMNOPQRSTUVWXYZ:./-".chars() {
        let g = glyph_bits(c);
        assert!(g.iter().any(|&row| row != 0), "glyph for {:?} is blank", c);
    }
}

#[test]
fn lowercase_maps_to_uppercase_shape() {
    assert_eq!(glyph_bits('a'), glyph_bits('A'));
    assert_eq!(glyph_bits('z'), glyph_bits('Z'));
}

// ---- Hand-plotted glyph verification: these lock the font so it can never
// silently regress into garbage again. ----

#[test]
fn glyph_a_matches_hand_plot() {
    assert_eq!(
        plot('A'),
        expect([
            ".###.",
            "#...#",
            "#...#",
            "#####",
            "#...#",
            "#...#",
            "#...#",
        ])
    );
}

#[test]
fn glyph_e_matches_hand_plot() {
    assert_eq!(
        plot('E'),
        expect([
            "#####",
            "#....",
            "#....",
            "####.",
            "#....",
            "#....",
            "#####",
        ])
    );
}

#[test]
fn glyph_zero_matches_hand_plot() {
    assert_eq!(
        plot('0'),
        expect([
            ".###.",
            "#...#",
            "#..##",
            "#.#.#",
            "##..#",
            "#...#",
            ".###.",
        ])
    );
}

#[test]
fn glyph_one_matches_hand_plot() {
    assert_eq!(
        plot('1'),
        expect([
            "..#..",
            ".##..",
            "..#..",
            "..#..",
            "..#..",
            "..#..",
            ".###.",
        ])
    );
}

#[test]
fn glyph_eight_matches_hand_plot() {
    assert_eq!(
        plot('8'),
        expect([
            ".###.",
            "#...#",
            "#...#",
            ".###.",
            "#...#",
            "#...#",
            ".###.",
        ])
    );
}

#[test]
fn glyph_colon_matches_hand_plot() {
    assert_eq!(
        plot(':'),
        expect([
            ".....",
            "..##.",
            "..##.",
            ".....",
            "..##.",
            "..##.",
            ".....",
        ])
    );
}

#[test]
fn glyph_period_matches_hand_plot() {
    assert_eq!(
        plot('.'),
        expect([
            ".....",
            ".....",
            ".....",
            ".....",
            ".....",
            "..##.",
            "..##.",
        ])
    );
}

#[test]
fn glyph_slash_matches_hand_plot() {
    assert_eq!(
        plot('/'),
        expect([
            "....#",
            "....#",
            "...#.",
            "..#..",
            ".#...",
            "#....",
            "#....",
        ])
    );
}

#[test]
fn lowercase_letters_all_share_uppercase_shapes() {
    for (lower, upper) in "abcdefghijklmnopqrstuvwxyz".chars().zip("ABCDEFGHIJKLMNOPQRSTUVWXYZ".chars()) {
        assert_eq!(glyph_bits(lower), glyph_bits(upper));
    }
}

#[test]
fn unknown_character_is_a_small_box() {
    assert_eq!(glyph_bits('@'), [0x00, 0x0E, 0x0A, 0x0A, 0x0A, 0x0E, 0x00]);
    assert_eq!(glyph_bits('~'), glyph_bits('@'));
}
