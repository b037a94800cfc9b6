//! What the workspace does with a submitted search: whether the pattern
//! ignores case, which match becomes the selection, and what the user is
//! told. The regular expression itself is compiled and run by the editor
//! core; these functions take its matches as byte ranges.
use vstd::prelude::*;
use crate::text::{chars_of, owned};

verus! {

broadcast use vstd::string::group_string_axioms;

/// What `char::is_lowercase` answers for a character beyond ASCII (the
/// Unicode `Lowercase` property).
pub uninterp spec fn is_lowercase_beyond_ascii(c: char) -> bool;

/// Whether a character has the Unicode `Lowercase` property (what
/// `char::is_lowercase` answers): within ASCII exactly `a` to `z`.
pub open spec fn is_lowercase_char(c: char) -> bool {
    if (c as u32) < 0x80 {
        0x61 <= (c as u32) && (c as u32) <= 0x7A
    } else {
        is_lowercase_beyond_ascii(c)
    }
}

/// Calls `char::is_lowercase` for a character beyond ASCII; the contract
/// only names its result.
#[verifier::external_body]
fn lowercase_beyond_ascii(c: char) -> (r: bool)
    requires
        (c as u32) >= 0x80,
    ensures
        r == is_lowercase_beyond_ascii(c),
{
    c.is_lowercase()
}

/// Whether a character is lowercase.
fn char_is_lowercase(c: char) -> (r: bool)
    ensures
        r == is_lowercase_char(c),
{
    let v = c as u32;
    if v < 0x80 {
        0x61 <= v && v <= 0x7A
    } else {
        lowercase_beyond_ascii(c)
    }
}

/// With smart case on, a pattern ignores case when every character of it is
/// lowercase (so a pattern with a digit or an upper-case letter does not).
pub open spec fn ignores_case(smart_case: bool, pattern: Seq<char>) -> bool {
    smart_case && forall|i: int| 0 <= i < pattern.len() ==> is_lowercase_char(#[trigger] pattern[i])
}

/// Whether a search for `pattern` ignores case.
pub fn search_ignores_case(smart_case: bool, pattern: &str) -> (r: bool)
    ensures
        r == ignores_case(smart_case, pattern@),
{
    if !smart_case {
        return false;
    }
    let chars = chars_of(pattern);
    let mut i: usize = 0;
    while i < chars.len()
        invariant
            i <= chars.len(),
            chars@ == pattern@,
            forall|j: int| 0 <= j < i ==> is_lowercase_char(#[trigger] chars@[j]),
        decreases chars.len() - i,
    {
        if !char_is_lowercase(chars[i]) {
            return false;
        }
        i = i + 1;
    }
    true
}

/// What a submitted search does to the selection.
#[derive(Debug, Clone, Copy, PartialEq, Eq)]
pub enum SearchOutcome {
    /// The match from byte `start` to byte `end` becomes the primary
    /// selection; `wrapped` when it lies before where the search started.
    Selected { start: usize, end: usize, wrapped: bool },
    /// The pattern matched the empty text; nothing is selected.
    EmptyMatch,
    /// The pattern did not match; nothing is selected.
    NotFound,
}

/// The match that a search takes: the first one after the search start, or,
/// when there is none and the search wraps around, the first one in the
/// document.
pub open spec fn chosen_match(
    after_start: Option<(usize, usize)>,
    from_top: Option<(usize, usize)>,
    wrap_around: bool,
) -> Option<(usize, usize)> {
    match after_start {
        Some(m) => Some(m),
        None => if wrap_around {
            from_top
        } else {
            None
        },
    }
}

pub open spec fn search_outcome_spec(
    after_start: Option<(usize, usize)>,
    from_top: Option<(usize, usize)>,
    wrap_around: bool,
    search_start: usize,
) -> SearchOutcome {
    match chosen_match(after_start, from_top, wrap_around) {
        Some((start, end)) => if start == end {
            SearchOutcome::EmptyMatch
        } else {
            SearchOutcome::Selected { start, end, wrapped: wrap_around && start < search_start }
        },
        None => SearchOutcome::NotFound,
    }
}

/// The outcome of a search that started at byte `search_start`, given the
/// first match after the start and the first match in the whole document.
pub fn search_outcome(
    after_start: Option<(usize, usize)>,
    from_top: Option<(usize, usize)>,
    wrap_around: bool,
    search_start: usize,
) -> (r: SearchOutcome)
    ensures
        r == search_outcome_spec(after_start, from_top, wrap_around, search_start),
{
    let chosen = match after_start {
        Some(m) => Some(m),
        None => if wrap_around {
            from_top
        } else {
            None
        },
    };
    match chosen {
        Some((start, end)) => if start == end {
            SearchOutcome::EmptyMatch
        } else {
            SearchOutcome::Selected { start, end, wrapped: wrap_around && start < search_start }
        },
        None => SearchOutcome::NotFound,
    }
}

/// A message for the status line: an error or an ordinary status.
#[derive(Debug, Clone, PartialEq, Eq)]
pub enum SearchMessage {
    Error(String),
    Status(String),
}

pub enum SearchMessageView {
    Error(Seq<char>),
    Status(Seq<char>),
}

impl View for SearchMessage {
    type V = SearchMessageView;

    open spec fn view(&self) -> SearchMessageView {
        match self {
            SearchMessage::Error(s) => SearchMessageView::Error(s@),
            SearchMessage::Status(s) => SearchMessageView::Status(s@),
        }
    }
}

pub open spec fn opt_message_view(m: Option<SearchMessage>) -> Option<SearchMessageView> {
    match m {
        Some(x) => Some(x@),
        None => None,
    }
}

/// What the user is told after a search for `pattern`.
pub open spec fn search_message_spec(outcome: SearchOutcome, pattern: Seq<char>) -> Option<
    SearchMessageView,
> {
    match outcome {
        SearchOutcome::EmptyMatch => Some(SearchMessageView::Error("Empty match"@)),
        SearchOutcome::NotFound => Some(SearchMessageView::Error("Pattern not found: "@ + pattern)),
        SearchOutcome::Selected { wrapped, .. } => if wrapped {
            Some(SearchMessageView::Status("Wrapped around document"@))
        } else {
            None
        },
    }
}

/// The message that a search outcome shows, if any.
pub fn search_message(outcome: SearchOutcome, pattern: &str) -> (r: Option<SearchMessage>)
    ensures
        opt_message_view(r) == search_message_spec(outcome, pattern@),
{
    match outcome {
        SearchOutcome::EmptyMatch => Some(SearchMessage::Error(owned("Empty match"))),
        SearchOutcome::NotFound => {
            let mut s = owned("Pattern not found: ");
            s.append(pattern);
            Some(SearchMessage::Error(s))
        },
        SearchOutcome::Selected { wrapped, .. } => if wrapped {
            Some(SearchMessage::Status(owned("Wrapped around document")))
        } else {
            None
        },
    }
}

/// The error shown when `pattern` is not a valid regular expression.
pub fn invalid_pattern_message(pattern: &str) -> (r: String)
    ensures
        r@ == "Invalid regex: Failed to compile regex: "@ + pattern@,
{
    let mut s = owned("Invalid regex: Failed to compile regex: ");
    s.append(pattern);
    s
}

} // verus!
