//! Splitting a line of the key-hint box into the key and its description:
//! the key is padded with spaces up to where the description starts; and
//! which color of the theme the box uses for each of its parts.
use vstd::prelude::*;
use crate::completion::{contains_piece, contains_text};
use crate::file_url::{replace_all, replace_text};
use crate::text::{
    chars_of, lemma_prefix_within_fits, prefix_within, string_of, take_prefix_within, trim,
    trim_chars, utf8_len, str_equal,
};

verus! {

/// How a hint line is shown.
#[derive(Debug, Clone, PartialEq)]
pub enum HintLine {
    /// No key and description could be told apart: the whole line, trimmed.
    Plain(String),
    /// The key part is empty: only the description.
    DescriptionOnly(String),
    /// A key and its description.
    KeyAndDescription { key: String, description: String },
}

/// The line with its line breaks turned into spaces.
pub open spec fn cleaned(line: Seq<char>) -> Seq<char> {
    replace_all(replace_all(line, "\n"@, " "@), "\r"@, " "@)
}

/// The first position at or after `i` that holds a space, or -1.
pub open spec fn first_space_from(c: Seq<char>, i: int) -> int
    decreases c.len() - i,
{
    if i < 0 || i >= c.len() {
        -1
    } else if c[i] == ' ' {
        i
    } else {
        first_space_from(c, i + 1)
    }
}

/// The first position at or after `i` that holds something else than a
/// space, or -1.
pub open spec fn first_non_space_from(c: Seq<char>, i: int) -> int
    decreases c.len() - i,
{
    if i < 0 || i >= c.len() {
        -1
    } else if c[i] != ' ' {
        i
    } else {
        first_non_space_from(c, i + 1)
    }
}

/// Where the key ends (the first space after the first character) and
/// where the description starts (the first non-space after that), counted
/// in characters.
pub open spec fn hint_split(c: Seq<char>) -> Option<(int, int)> {
    let k = first_space_from(c, 1);
    if k < 0 {
        None
    } else {
        let d = first_non_space_from(c, k + 1);
        if d < 0 { None } else { Some((k, d)) }
    }
}

/// Whether the character positions where the line is cut also fall
/// between two characters when counted as bytes, as the cutting does.
pub open spec fn hint_cuts_fall_between_chars(line: Seq<char>) -> bool {
    let c = cleaned(line);
    match hint_split(c) {
        Some((k, d)) => utf8_len(prefix_within(c, k)) == k && utf8_len(prefix_within(c, d)) == d,
        None => true,
    }
}

/// How a hint line is shown, as texts: the whole line trimmed when no key
/// and description are told apart; otherwise the text before the key's
/// end and the text from the description's start, both cut as bytes and
/// trimmed, the key left out when empty.
pub open spec fn hint_line_spec(line: Seq<char>) -> (int, Seq<char>, Seq<char>) {
    let c = cleaned(line);
    match hint_split(c) {
        None => (0, trim(c), Seq::empty()),
        Some((k, d)) => {
            let key = trim(prefix_within(c, k));
            let desc = trim(c.skip(prefix_within(c, d).len() as int));
            if key.len() == 0 { (1, Seq::empty(), desc) } else { (2, key, desc) }
        },
    }
}

/// The kind and texts of a shown hint line, as `hint_line_spec` gives them.
pub open spec fn hint_line_view(h: HintLine) -> (int, Seq<char>, Seq<char>) {
    match h {
        HintLine::Plain(t) => (0, t@, Seq::empty()),
        HintLine::DescriptionOnly(d) => (1, Seq::empty(), d@),
        HintLine::KeyAndDescription { key, description } => (2, key@, description@),
    }
}

fn find_from(c: &Vec<char>, start: usize, space: bool) -> (r: Option<usize>)
    ensures
        r matches Some(i) ==> i < c@.len(),
        space ==> match r {
            Some(i) => i == first_space_from(c@, start as int),
            None => first_space_from(c@, start as int) == -1,
        },
        !space ==> match r {
            Some(i) => i == first_non_space_from(c@, start as int),
            None => first_non_space_from(c@, start as int) == -1,
        },
    decreases c.len() - start,
{
    if start >= c.len() {
        return None;
    }
    if (c[start] == ' ') == space {
        return Some(start);
    }
    find_from(c, start + 1, space)
}

/// Splits a line of the key-hint box into its key and description.
pub fn hint_line(line: &str) -> (r: HintLine)
    requires
        hint_cuts_fall_between_chars(line@),
    ensures
        hint_line_view(r) == hint_line_spec(line@),
{
    proof {
        reveal_strlit("\n");
        reveal_strlit("\r");
    }
    let a = replace_text(line, "\n", " ");
    let b = replace_text(a.as_str(), "\r", " ");
    let c = chars_of(b.as_str());
    let split = match find_from(&c, 1, true) {
        Some(k) => match find_from(&c, k + 1, false) {
            Some(d) => Some((k, d)),
            None => None,
        },
        None => None,
    };
    match split {
        None => HintLine::Plain(string_of(trim_chars(c.as_slice()).as_slice())),
        Some((k, d)) => {
            let key_part = take_prefix_within(c.as_slice(), k);
            let key = trim_chars(key_part.as_slice());
            let before_desc = take_prefix_within(c.as_slice(), d);
            proof {
                lemma_prefix_within_fits(c@, d as int);
            }
            let start = before_desc.len();
            let mut rest: Vec<char> = Vec::new();
            let mut i: usize = start;
            while i < c.len()
                invariant
                    start <= i <= c.len(),
                    rest@ == c@.subrange(start as int, i as int),
                decreases c.len() - i,
            {
                rest.push(c[i]);
                i = i + 1;
                assert(rest@ =~= c@.subrange(start as int, i as int));
            }
            assert(rest@ =~= c@.skip(start as int));
            let desc = string_of(trim_chars(rest.as_slice()).as_slice());
            if key.len() == 0 {
                HintLine::DescriptionOnly(desc)
            } else {
                HintLine::KeyAndDescription { key: string_of(key.as_slice()), description: desc }
            }
        },
    }
}

/// Which color the key-hint box gives a part of the theme.
#[derive(Debug, Clone, Copy, PartialEq, Eq)]
pub enum HintColor {
    /// The theme's background color for the key.
    Background,
    /// The theme's foreground color for the key.
    Foreground,
    /// A fixed color, as `0xRRGGBB`.
    Fixed(u32),
}

/// The fixed color of a theme key when the theme has none: lighter
/// backgrounds for popups, a border color, and a light text color.
pub open spec fn fallback_color_spec(key: Seq<char>) -> u32 {
    if key == "ui.popup"@ {
        0x2a2a3e
    } else if key == "ui.popup.info"@ {
        0x3b3b52
    } else if key == "ui.window"@ {
        0x414559
    } else {
        0xc6d0f5
    }
}

/// Popups and the window border take the background color of their style.
pub open spec fn uses_background(key: Seq<char>) -> bool {
    contains_piece(key, "popup"@) || key == "ui.window"@
}

/// The color of `key`: for popups and the window border the style's
/// background when the theme gives one, else the style's foreground when it
/// gives one, else the fixed fallback.
pub open spec fn hint_color_spec(key: Seq<char>, has_background: bool, has_foreground: bool) -> HintColor {
    if uses_background(key) && has_background {
        HintColor::Background
    } else if has_foreground {
        HintColor::Foreground
    } else {
        HintColor::Fixed(fallback_color_spec(key))
    }
}

/// The fixed color of a theme key.
pub fn fallback_color(key: &str) -> (r: u32)
    ensures
        r == fallback_color_spec(key@),
{
    if str_equal(key, "ui.popup") {
        0x2a2a3e
    } else if str_equal(key, "ui.popup.info") {
        0x3b3b52
    } else if str_equal(key, "ui.window") {
        0x414559
    } else {
        0xc6d0f5
    }
}

/// Which color the key-hint box uses for `key`, given whether the theme's
/// style for it has a usable background and foreground color.
pub fn hint_color(key: &str, has_background: bool, has_foreground: bool) -> (r: HintColor)
    ensures
        r == hint_color_spec(key@, has_background, has_foreground),
{
    if (contains_text(key, "popup") || str_equal(key, "ui.window")) && has_background {
        HintColor::Background
    } else if has_foreground {
        HintColor::Foreground
    } else {
        HintColor::Fixed(fallback_color(key))
    }
}

} // verus!
