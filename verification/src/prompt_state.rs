//! The text prompt: its input line with a cursor, the completions offered
//! for it with a selection, and what each key does.
use vstd::prelude::*;
use crate::text::{append_chars, chars_of, char_width, prefix_within, string_of, take_prefix_within, utf8_len};
use crate::text::lemma_prefix_within_fits;

verus! {

/// One completion of the prompt: the text it puts in, and what it is.
#[derive(Clone, Debug)]
pub struct PromptCompletion {
    pub text: String,
    pub description: Option<String>,
}

/// What a key did to the prompt.
#[derive(Clone, Debug, PartialEq)]
pub enum PromptOutcome {
    /// Nothing that anyone is told about.
    Nothing,
    /// The input changed; it is now this text.
    Changed(String),
    /// The input was submitted.
    Submitted(String),
    /// The prompt was cancelled.
    Cancelled,
}

/// The prompt's label, input, cursor and completions.
pub struct PromptState {
    prompt: String,
    input: String,
    cursor_position: usize,
    completions: Vec<PromptCompletion>,
    completion_selection: usize,
    show_completions: bool,
}

/// The view of the prompt.
pub struct PromptStateView {
    pub prompt: Seq<char>,
    pub input: Seq<char>,
    pub cursor: usize,
    pub completions: Seq<PromptCompletion>,
    pub selection: usize,
    pub showing: bool,
}

impl View for PromptState {
    type V = PromptStateView;

    closed spec fn view(&self) -> PromptStateView {
        PromptStateView {
            prompt: self.prompt@,
            input: self.input@,
            cursor: self.cursor_position,
            completions: self.completions@,
            selection: self.completion_selection,
            showing: self.show_completions,
        }
    }
}

/// Whether a byte offset of the input falls between two characters (or at
/// its end), so that a character can be put there.
pub open spec fn cursor_between_chars(input: Seq<char>, cursor: usize) -> bool {
    utf8_len(prefix_within(input, cursor as int)) == cursor
}

/// The input with `ch` put at byte offset `cursor`.
pub open spec fn inserted_at_byte(input: Seq<char>, cursor: usize, ch: char) -> Seq<char> {
    let before = prefix_within(input, cursor as int);
    before.push(ch) + input.subrange(before.len() as int, input.len() as int)
}

/// Whether a one-byte key types a character: a letter, a digit, a
/// punctuation mark or a space (every printable ASCII character).
pub open spec fn types_char(c: char) -> bool {
    0x20 <= (c as u32) <= 0x7E
}

/// The cursor after moving by `delta` characters: not past the input's
/// number of characters, not before its start.
pub open spec fn moved_cursor(cursor: usize, delta: isize, len: nat) -> usize {
    if delta > 0 {
        if cursor + delta < len { (cursor + delta) as usize } else { len as usize }
    } else if cursor + delta >= 0 {
        (cursor + delta) as usize
    } else {
        0
    }
}

/// The completion selection after moving by `delta`, within the completions.
pub open spec fn moved_selection(selection: usize, delta: isize, len: nat) -> usize {
    if delta > 0 {
        if selection + delta < len { (selection + delta) as usize } else { (len - 1) as usize }
    } else if selection + delta >= 0 {
        (selection + delta) as usize
    } else {
        0
    }
}

impl PromptState {
    /// A prompt with a label, an empty input and no completions.
    pub fn new(prompt: String) -> (r: PromptState)
        ensures
            r@ == (PromptStateView {
                prompt: prompt@,
                input: Seq::empty(),
                cursor: 0,
                completions: Seq::empty(),
                selection: 0,
                showing: false,
            }),
    {
        PromptState {
            prompt,
            input: String::new(),
            cursor_position: 0,
            completions: Vec::new(),
            completion_selection: 0,
            show_completions: false,
        }
    }

    /// The label.
    pub fn prompt(&self) -> (r: &String)
        ensures
            r@ == self@.prompt,
    {
        &self.prompt
    }

    /// The input.
    pub fn input(&self) -> (r: &String)
        ensures
            r@ == self@.input,
    {
        &self.input
    }

    /// The cursor.
    pub fn cursor_position(&self) -> (r: usize)
        ensures
            r == self@.cursor,
    {
        self.cursor_position
    }

    /// The completions.
    pub fn completions(&self) -> (r: &Vec<PromptCompletion>)
        ensures
            r@ == self@.completions,
    {
        &self.completions
    }

    /// The selected completion's position.
    pub fn completion_selection(&self) -> (r: usize)
        ensures
            r == self@.selection,
    {
        self.completion_selection
    }

    /// Whether the completions are shown.
    pub fn showing_completions(&self) -> (r: bool)
        ensures
            r == self@.showing,
    {
        self.show_completions
    }

    /// Offers completions, selecting the first and showing them when there is one.
    pub fn set_completions(&mut self, completions: Vec<PromptCompletion>)
        ensures
            final(self)@ == (PromptStateView {
                completions: completions@,
                selection: 0,
                showing: completions@.len() > 0,
                ..old(self)@
            }),
    {
        self.show_completions = completions.len() > 0;
        self.completions = completions;
        self.completion_selection = 0;
    }

    /// Sets the input, with the cursor at its end counted in bytes.
    pub fn set_text(&mut self, text: &str)
        ensures
            final(self)@ == (PromptStateView {
                input: text@,
                cursor: vstd::utf8::encode_utf8(text@).len() as usize,
                ..old(self)@
            }),
    {
        self.input = crate::text::owned(text);
        self.cursor_position = text.len();
    }

    /// Puts a character at the cursor (a byte offset) and moves the cursor
    /// past it.
    pub fn insert_char(&mut self, ch: char)
        requires
            cursor_between_chars(old(self)@.input, old(self)@.cursor),
            old(self)@.cursor + 4 <= usize::MAX,
        ensures
            final(self)@ == (PromptStateView {
                input: inserted_at_byte(old(self)@.input, old(self)@.cursor, ch),
                cursor: (old(self)@.cursor + crate::text::utf8_width(ch)) as usize,
                ..old(self)@
            }),
    {
        let chars = chars_of(self.input.as_str());
        let mut out = take_prefix_within(chars.as_slice(), self.cursor_position);
        proof {
            lemma_prefix_within_fits(chars@, self.cursor_position as int);
        }
        let k = out.len();
        out.push(ch);
        let mut j: usize = k;
        let ghost front = out@;
        while j < chars.len()
            invariant
                k <= j <= chars.len(),
                out@ == front + chars@.subrange(k as int, j as int),
            decreases chars.len() - j,
        {
            out.push(chars[j]);
            j = j + 1;
            assert(out@ =~= front + chars@.subrange(k as int, j as int));
        }
        self.input = string_of(out.as_slice());
        self.cursor_position = self.cursor_position + char_width(ch);
    }

    /// Deletes the character before the cursor, counting the cursor in
    /// characters, and moves the cursor onto its place; nothing changes at
    /// the start or past the end.
    pub fn delete_char(&mut self)
        ensures
            (old(self)@.cursor == 0 || old(self)@.cursor - 1 >= old(self)@.input.len()) ==> final(self)@ == old(self)@,
            (old(self)@.cursor > 0 && old(self)@.cursor - 1 < old(self)@.input.len()) ==> final(self)@ == (PromptStateView {
                input: old(self)@.input.remove(old(self)@.cursor - 1),
                cursor: (old(self)@.cursor - 1) as usize,
                ..old(self)@
            }),
    {
        if self.cursor_position == 0 {
            return;
        }
        let char_pos = self.cursor_position - 1;
        let mut chars = chars_of(self.input.as_str());
        if char_pos >= chars.len() {
            return;
        }
        chars.remove(char_pos);
        self.input = string_of(chars.as_slice());
        self.cursor_position = char_pos;
    }

    /// Moves the cursor by `delta` characters, within the input.
    pub fn move_cursor(&mut self, delta: isize)
        requires
            delta != isize::MIN,
            old(self)@.cursor + delta <= usize::MAX,
        ensures
            final(self)@ == (PromptStateView {
                cursor: moved_cursor(old(self)@.cursor, delta, old(self)@.input.len()),
                ..old(self)@
            }),
    {
        let len = self.input.as_str().unicode_len();
        if delta > 0 {
            let forward = self.cursor_position + (delta as usize);
            self.cursor_position = if forward < len {
                forward
            } else {
                len
            };
        } else {
            self.cursor_position = self.cursor_position.saturating_sub((-delta) as usize);
        }
    }

    /// Moves the completion selection by `delta`, within the completions;
    /// nothing changes without completions.
    pub fn move_completion_selection(&mut self, delta: isize)
        requires
            delta != isize::MIN,
            old(self)@.selection + delta <= usize::MAX,
        ensures
            old(self)@.completions.len() == 0 ==> final(self)@ == old(self)@,
            old(self)@.completions.len() > 0 ==> final(self)@ == (PromptStateView {
                selection: moved_selection(old(self)@.selection, delta, old(self)@.completions.len()),
                ..old(self)@
            }),
    {
        if self.completions.len() == 0 {
            return;
        }
        let last = self.completions.len() - 1;
        if delta > 0 {
            let forward = self.completion_selection + (delta as usize);
            self.completion_selection = if forward < last {
                forward
            } else {
                last
            };
        } else {
            self.completion_selection = self.completion_selection.saturating_sub((-delta) as usize);
        }
    }

    /// Takes the selected completion as the input, with the cursor at its
    /// end counted in characters, and hides the completions; whether that
    /// happened (only while completions are shown and one is selected).
    pub fn accept_completion(&mut self) -> (r: bool)
        ensures
            r == (old(self)@.showing && old(self)@.selection < old(self)@.completions.len()),
            r ==> final(self)@ == (PromptStateView {
                input: old(self)@.completions[old(self)@.selection as int].text@,
                cursor: old(self)@.completions[old(self)@.selection as int].text@.len() as usize,
                showing: false,
                ..old(self)@
            }),
            !r ==> final(self)@ == old(self)@,
    {
        if self.show_completions && self.completions.len() > 0 && self.completion_selection < self.completions.len() {
            let text = self.completions[self.completion_selection].text.clone();
            self.cursor_position = text.as_str().unicode_len();
            self.input = text;
            self.show_completions = false;
            true
        } else {
            false
        }
    }

    /// What a key does: Enter takes the selected completion or submits,
    /// Escape hides the completions or cancels, Tab takes the selected
    /// completion, Up and Down move the completion selection while shown,
    /// Left and Right move the cursor, Backspace deletes, and a one-byte key
    /// that is printable is typed.
    pub fn handle_key(&mut self, key: &str) -> (r: PromptOutcome)
        requires
            old(self)@.cursor < usize::MAX - 4,
            old(self)@.selection < usize::MAX,
            key@.len() == 1 && types_char(key@[0]) ==> cursor_between_chars(old(self)@.input, old(self)@.cursor),
        ensures
            key@ == "enter"@ && !(old(self)@.showing && old(self)@.completions.len() > 0) ==>
                final(self)@ == old(self)@ && (r matches PromptOutcome::Submitted(t) && t@ == old(self)@.input),
            key@ == "escape"@ && !old(self)@.showing ==> final(self)@ == old(self)@ && r == PromptOutcome::Cancelled,
            key@ == "escape"@ && old(self)@.showing ==>
                final(self)@ == (PromptStateView { showing: false, ..old(self)@ }) && r == PromptOutcome::Nothing,
            key@ == "left"@ ==> final(self)@ == (PromptStateView {
                cursor: moved_cursor(old(self)@.cursor, -1isize, old(self)@.input.len()),
                ..old(self)@
            }) && r == PromptOutcome::Nothing,
            key@ == "right"@ ==> final(self)@ == (PromptStateView {
                cursor: moved_cursor(old(self)@.cursor, 1isize, old(self)@.input.len()),
                ..old(self)@
            }) && r == PromptOutcome::Nothing,
            key@.len() == 1 && types_char(key@[0]) ==> final(self)@ == (PromptStateView {
                input: inserted_at_byte(old(self)@.input, old(self)@.cursor, key@[0]),
                cursor: (old(self)@.cursor + 1) as usize,
                ..old(self)@
            }) && (r matches PromptOutcome::Changed(t) && t@ == final(self)@.input),
            key@.len() == 1 && !types_char(key@[0]) ==> final(self)@ == old(self)@ && r == PromptOutcome::Nothing,
            (key@ == "enter"@ || key@ == "tab"@) && old(self)@.showing && old(self)@.selection < old(self)@.completions.len() ==>
                final(self)@ == (PromptStateView {
                    input: old(self)@.completions[old(self)@.selection as int].text@,
                    cursor: old(self)@.completions[old(self)@.selection as int].text@.len() as usize,
                    showing: false,
                    ..old(self)@
                }) && (r matches PromptOutcome::Changed(t) && t@ == final(self)@.input),
            key@ == "tab"@ && !(old(self)@.showing && old(self)@.selection < old(self)@.completions.len()) ==>
                final(self)@ == old(self)@ && r == PromptOutcome::Nothing,
            (key@ == "up"@ || key@ == "down"@) && !old(self)@.showing ==> final(self)@ == old(self)@ && r == PromptOutcome::Nothing,
            (key@ == "up"@ || key@ == "down"@) && old(self)@.showing && old(self)@.completions.len() > 0 ==>
                final(self)@ == (PromptStateView {
                    selection: moved_selection(old(self)@.selection, if key@ == "up"@ { -1isize } else { 1isize }, old(self)@.completions.len()),
                    ..old(self)@
                }) && r == PromptOutcome::Nothing,
            key@ == "backspace"@ && (old(self)@.cursor == 0 || old(self)@.cursor - 1 >= old(self)@.input.len()) ==>
                final(self)@ == old(self)@ && r == PromptOutcome::Nothing,
            key@ == "backspace"@ && old(self)@.cursor > 0 && old(self)@.cursor - 1 < old(self)@.input.len() ==>
                final(self)@ == (PromptStateView {
                    input: old(self)@.input.remove(old(self)@.cursor - 1),
                    cursor: (old(self)@.cursor - 1) as usize,
                    ..old(self)@
                }) && (r matches PromptOutcome::Changed(t) && t@ == final(self)@.input),
    {
        proof {
            reveal_strlit("enter");
            reveal_strlit("escape");
            reveal_strlit("tab");
            reveal_strlit("up");
            reveal_strlit("down");
            reveal_strlit("left");
            reveal_strlit("right");
            reveal_strlit("backspace");
        }
        let k = chars_of(key);
        if crate::text::str_equal(key, "enter") {
            if self.show_completions && self.completions.len() > 0 {
                if self.accept_completion() {
                    return PromptOutcome::Changed(self.input.clone());
                }
                return PromptOutcome::Nothing;
            }
            return PromptOutcome::Submitted(self.input.clone());
        }
        if crate::text::str_equal(key, "escape") {
            if self.show_completions {
                self.show_completions = false;
                return PromptOutcome::Nothing;
            }
            return PromptOutcome::Cancelled;
        }
        if crate::text::str_equal(key, "tab") {
            if self.show_completions && self.completions.len() > 0 {
                if self.accept_completion() {
                    return PromptOutcome::Changed(self.input.clone());
                }
            }
            return PromptOutcome::Nothing;
        }
        if crate::text::str_equal(key, "up") {
            if self.show_completions {
                self.move_completion_selection(-1);
            }
            return PromptOutcome::Nothing;
        }
        if crate::text::str_equal(key, "down") {
            if self.show_completions {
                self.move_completion_selection(1);
            }
            return PromptOutcome::Nothing;
        }
        if crate::text::str_equal(key, "left") {
            self.move_cursor(-1);
            return PromptOutcome::Nothing;
        }
        if crate::text::str_equal(key, "right") {
            self.move_cursor(1);
            return PromptOutcome::Nothing;
        }
        if crate::text::str_equal(key, "backspace") {
            let deletes = self.cursor_position > 0 && self.cursor_position - 1 < self.input.as_str().unicode_len();
            self.delete_char();
            if deletes {
                return PromptOutcome::Changed(self.input.clone());
            }
            return PromptOutcome::Nothing;
        }
        if k.len() == 1 {
            let ch = k[0];
            let code = ch as u32;
            if 0x20 <= code && code <= 0x7E {
                proof {
                    vstd::utf8::char_is_scalar(ch);
                }
                self.insert_char(ch);
                return PromptOutcome::Changed(self.input.clone());
            }
        }
        PromptOutcome::Nothing
    }
}

/// Typing a printable character and then deleting it with Backspace gives
/// back the input, when the text before the cursor takes one byte per
/// character.
pub proof fn lemma_backspace_undoes_typing(input: Seq<char>, cursor: usize, ch: char)
    requires
        cursor_between_chars(input, cursor),
        prefix_within(input, cursor as int).len() == cursor,
        types_char(ch),
    ensures
        inserted_at_byte(input, cursor, ch).len() == input.len() + 1,
        cursor < inserted_at_byte(input, cursor, ch).len(),
        inserted_at_byte(input, cursor, ch).remove(cursor as int) == input,
{
    lemma_prefix_within_fits(input, cursor as int);
    let before = prefix_within(input, cursor as int);
    assert(before =~= input.subrange(0, cursor as int));
    assert(inserted_at_byte(input, cursor, ch).remove(cursor as int) =~= input);
}

} // verus!
