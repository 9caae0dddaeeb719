//! Fixed glyph tables: a sub-cell fill level (or a pair of fill levels)
//! mapped to the Unicode block or braille glyph that draws it.
//!
//! Levels outside the documented range are clamped to the fully filled
//! glyph, which keeps every lookup total.

use vstd::prelude::*;

verus! {

/// Vertical fill table: level 0 is blank, level 8 a full block.
pub open spec fn vert_glyph(level: int) -> Seq<char> {
    if level <= 0 {
        " "@
    } else if level == 1 {
        "\u{2581}"@
    } else if level == 2 {
        "\u{2582}"@
    } else if level == 3 {
        "\u{2583}"@
    } else if level == 4 {
        "\u{2584}"@
    } else if level == 5 {
        "\u{2585}"@
    } else if level == 6 {
        "\u{2586}"@
    } else if level == 7 {
        "\u{2587}"@
    } else {
        "\u{2588}"@
    }
}

/// Horizontal fill table: level 0 is blank, level 8 a full block.
pub open spec fn horiz_glyph(level: int) -> Seq<char> {
    if level <= 0 {
        " "@
    } else if level == 1 {
        "\u{258F}"@
    } else if level == 2 {
        "\u{258E}"@
    } else if level == 3 {
        "\u{258D}"@
    } else if level == 4 {
        "\u{258C}"@
    } else if level == 5 {
        "\u{258B}"@
    } else if level == 6 {
        "\u{258A}"@
    } else if level == 7 {
        "\u{2589}"@
    } else {
        "\u{2588}"@
    }
}

/// The full block glyph, the level-8 entry of both fill tables.
pub open spec fn full_block() -> Seq<char> {
    "\u{2588}"@
}

/// Braille composite table: the glyph whose left and right dot columns
/// are filled to `left` and `right` of four levels; `(0, 0)` is a space.
pub open spec fn braille_glyph(left: int, right: int) -> Seq<char> {
    if left <= 0 {
        if right <= 0 {
            " "@
        } else if right == 1 {
            "\u{2880}"@
        } else if right == 2 {
            "\u{28A0}"@
        } else if right == 3 {
            "\u{28B0}"@
        } else {
            "\u{28B8}"@
        }
    } else if left == 1 {
        if right <= 0 {
            "\u{2840}"@
        } else if right == 1 {
            "\u{28C0}"@
        } else if right == 2 {
            "\u{28E0}"@
        } else if right == 3 {
            "\u{28F0}"@
        } else {
            "\u{28F8}"@
        }
    } else if left == 2 {
        if right <= 0 {
            "\u{2844}"@
        } else if right == 1 {
            "\u{28C4}"@
        } else if right == 2 {
            "\u{28E4}"@
        } else if right == 3 {
            "\u{28F4}"@
        } else {
            "\u{28FC}"@
        }
    } else if left == 3 {
        if right <= 0 {
            "\u{2846}"@
        } else if right == 1 {
            "\u{28C6}"@
        } else if right == 2 {
            "\u{28E6}"@
        } else if right == 3 {
            "\u{28F6}"@
        } else {
            "\u{28FE}"@
        }
    } else {
        if right <= 0 {
            "\u{2847}"@
        } else if right == 1 {
            "\u{28C7}"@
        } else if right == 2 {
            "\u{28E7}"@
        } else if right == 3 {
            "\u{28F7}"@
        } else {
            "\u{28FF}"@
        }
    }
}

/// Looks up the vertical fill glyph for `level`.
pub fn vert_glyph_str(level: u8) -> (out: &'static str)
    ensures
        out@ == vert_glyph(level as int),
{
    match level {
        0 => " ",
        1 => "\u{2581}",
        2 => "\u{2582}",
        3 => "\u{2583}",
        4 => "\u{2584}",
        5 => "\u{2585}",
        6 => "\u{2586}",
        7 => "\u{2587}",
        _ => "\u{2588}",
    }
}

/// Looks up the horizontal fill glyph for `level`.
pub fn horiz_glyph_str(level: u8) -> (out: &'static str)
    ensures
        out@ == horiz_glyph(level as int),
{
    match level {
        0 => " ",
        1 => "\u{258F}",
        2 => "\u{258E}",
        3 => "\u{258D}",
        4 => "\u{258C}",
        5 => "\u{258B}",
        6 => "\u{258A}",
        7 => "\u{2589}",
        _ => "\u{2588}",
    }
}

/// Looks up the braille composite glyph for the pair `(left, right)`.
pub fn braille_glyph_str(left: u8, right: u8) -> (out: &'static str)
    ensures
        out@ == braille_glyph(left as int, right as int),
{
    match (left, right) {
        (0, 0) => " ",
        (0, 1) => "\u{2880}",
        (0, 2) => "\u{28A0}",
        (0, 3) => "\u{28B0}",
        (0, _) => "\u{28B8}",
        (1, 0) => "\u{2840}",
        (1, 1) => "\u{28C0}",
        (1, 2) => "\u{28E0}",
        (1, 3) => "\u{28F0}",
        (1, _) => "\u{28F8}",
        (2, 0) => "\u{2844}",
        (2, 1) => "\u{28C4}",
        (2, 2) => "\u{28E4}",
        (2, 3) => "\u{28F4}",
        (2, _) => "\u{28FC}",
        (3, 0) => "\u{2846}",
        (3, 1) => "\u{28C6}",
        (3, 2) => "\u{28E6}",
        (3, 3) => "\u{28F6}",
        (3, _) => "\u{28FE}",
        (_, 0) => "\u{2847}",
        (_, 1) => "\u{28C7}",
        (_, 2) => "\u{28E7}",
        (_, 3) => "\u{28F7}",
        (_, _) => "\u{28FF}",
    }
}

/// Every entry of the vertical fill table is a single character.
pub proof fn lemma_vert_glyph_len(level: int)
    ensures
        vert_glyph(level).len() == 1,
{
    reveal_strlit(" ");
    reveal_strlit("\u{2581}");
    reveal_strlit("\u{2582}");
    reveal_strlit("\u{2583}");
    reveal_strlit("\u{2584}");
    reveal_strlit("\u{2585}");
    reveal_strlit("\u{2586}");
    reveal_strlit("\u{2587}");
    reveal_strlit("\u{2588}");
}

/// Every entry of the horizontal fill table is a single character.
pub proof fn lemma_horiz_glyph_len(level: int)
    ensures
        horiz_glyph(level).len() == 1,
{
    reveal_strlit(" ");
    reveal_strlit("\u{258F}");
    reveal_strlit("\u{258E}");
    reveal_strlit("\u{258D}");
    reveal_strlit("\u{258C}");
    reveal_strlit("\u{258B}");
    reveal_strlit("\u{258A}");
    reveal_strlit("\u{2589}");
    reveal_strlit("\u{2588}");
}

/// Every entry of the braille composite table is a single character:
/// the table is complete over all pairs of levels.
pub proof fn lemma_braille_glyph_len(left: int, right: int)
    ensures
        braille_glyph(left, right).len() == 1,
{
    reveal_strlit(" ");
    reveal_strlit("\u{2880}");
    reveal_strlit("\u{28A0}");
    reveal_strlit("\u{28B0}");
    reveal_strlit("\u{28B8}");
    reveal_strlit("\u{2840}");
    reveal_strlit("\u{28C0}");
    reveal_strlit("\u{28E0}");
    reveal_strlit("\u{28F0}");
    reveal_strlit("\u{28F8}");
    reveal_strlit("\u{2844}");
    reveal_strlit("\u{28C4}");
    reveal_strlit("\u{28E4}");
    reveal_strlit("\u{28F4}");
    reveal_strlit("\u{28FC}");
    reveal_strlit("\u{2846}");
    reveal_strlit("\u{28C6}");
    reveal_strlit("\u{28E6}");
    reveal_strlit("\u{28F6}");
    reveal_strlit("\u{28FE}");
    reveal_strlit("\u{2847}");
    reveal_strlit("\u{28C7}");
    reveal_strlit("\u{28E7}");
    reveal_strlit("\u{28F7}");
    reveal_strlit("\u{28FF}");
}

} // verus!
