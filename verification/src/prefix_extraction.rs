//! Language-aware extraction of the completion prefix at the cursor: the
//! identifier being typed, or what follows a trigger character such as `.`.
use vstd::prelude::*;
use vstd::string::StringSliceAdditionalSpecFns;
use vstd::utf8::{decode_utf8, encode_utf8, is_char_boundary};
use crate::text::{chars_of, str_equal, string_of};

verus! {

broadcast use {vstd::string::group_string_axioms, vstd::utf8::encode_utf8_decode_utf8};

/// A set of characters.
pub struct CharSet {
    chars: Vec<char>,
}

impl View for CharSet {
    type V = Set<char>;

    closed spec fn view(&self) -> Set<char> {
        self.chars@.to_set()
    }
}

impl CharSet {
    /// The empty set.
    pub fn new() -> (r: CharSet)
        ensures
            r@ == Set::<char>::empty(),
    {
        let r = CharSet { chars: Vec::new() };
        assert(r@ =~= Set::<char>::empty());
        r
    }

    /// Whether `c` is in the set.
    pub fn contains(&self, c: char) -> (r: bool)
        ensures
            r == self@.contains(c),
    {
        let mut i: usize = 0;
        while i < self.chars.len()
            invariant
                i <= self.chars.len(),
                forall|k: int| 0 <= k < i ==> self.chars@[k] != c,
            decreases self.chars.len() - i,
        {
            if self.chars[i] == c {
                assert(self.chars@.contains(c));
                return true;
            }
            i = i + 1;
        }
        false
    }

    /// Adds `c` to the set.
    pub fn insert(&mut self, c: char)
        ensures
            final(self)@ == old(self)@.insert(c),
    {
        if !self.contains(c) {
            let ghost before = self.chars@;
            self.chars.push(c);
            proof {
                assert forall|x: char| (before.contains(x) || x == c) implies self.chars@.contains(x) by {
                    if x == c {
                        assert(self.chars@[before.len() as int] == c);
                    } else if before.contains(x) {
                        let k = choose|k: int| 0 <= k < before.len() && before[k] == x;
                        assert(self.chars@[k] == x);
                    }
                }
                assert forall|x: char| self.chars@.contains(x) implies (before.contains(x) || x == c) by {
                    let k = choose|k: int| 0 <= k < self.chars@.len() && self.chars@[k] == x;
                    if k < before.len() {
                        assert(before[k] == x);
                    }
                }
            }
        }
        assert(self@ =~= old(self)@.insert(c));
    }

    /// Adds the characters whose codes lie from `lo` to `hi`.
    fn insert_range(&mut self, lo: u8, hi: u8)
        requires
            lo <= hi,
            hi < 255,
        ensures
            final(self)@ == old(self)@.union(Set::new(|c: char| lo <= c as int <= hi)),
    {
        let mut b: u8 = lo;
        while b <= hi
            invariant
                lo <= b <= hi + 1,
                hi < 255,
                self@ == old(self)@.union(Set::new(|c: char| lo <= c as int && (c as int) < b)),
            decreases hi + 1 - b,
        {
            let c = b as char;
            self.insert(c);
            proof {
                assert(c as int == b as int);
                assert(self@ =~= old(self)@.union(
                    Set::new(|x: char| lo <= x as int && (x as int) < b + 1),
                ));
            }
            b = b + 1;
        }
        assert(self@ =~= old(self)@.union(Set::new(|c: char| lo <= c as int <= hi)));
    }
}

/// The characters that may form identifiers by default: ASCII letters and
/// digits, `_`, and the `-`, `$` and `@` of some languages.
pub open spec fn default_identifier_chars() -> Set<char> {
    Set::new(
        |c: char|
            ('a' <= c && c <= 'z') || ('A' <= c && c <= 'Z') || ('0' <= c && c <= '9') || c
                == '_' || c == '-' || c == '$' || c == '@',
    )
}

/// The characters that open a member completion by default.
pub open spec fn default_trigger_chars() -> Set<char> {
    set!['.', ':', '>']
}

/// The characters that end a completion context.
pub open spec fn default_separator_chars() -> Set<char> {
    set![' ', '\t', '\n', '(', ')', '[', ']', '{', '}', ',', ';']
}

/// Classifies characters for completion: identifier, trigger and separator characters.
pub struct PrefixExtractor {
    identifier_chars: CharSet,
    trigger_chars: CharSet,
    separator_chars: CharSet,
}

/// The three character classes of an extractor.
pub struct PrefixExtractorView {
    pub identifier: Set<char>,
    pub trigger: Set<char>,
    pub separator: Set<char>,
}

impl View for PrefixExtractor {
    type V = PrefixExtractorView;

    closed spec fn view(&self) -> PrefixExtractorView {
        PrefixExtractorView {
            identifier: self.identifier_chars@,
            trigger: self.trigger_chars@,
            separator: self.separator_chars@,
        }
    }
}

/// Whether, walking back from the end, a trigger character comes before any separator.
pub open spec fn in_trigger_context(e: PrefixExtractorView, chars: Seq<char>) -> bool
    decreases chars.len(),
{
    if chars.len() == 0 {
        false
    } else if e.trigger.contains(chars.last()) {
        true
    } else if e.separator.contains(chars.last()) {
        false
    } else {
        in_trigger_context(e, chars.drop_last())
    }
}

/// Index of the last character of the set, or -1 when there is none.
pub open spec fn last_index_in(set: Set<char>, chars: Seq<char>) -> int
    decreases chars.len(),
{
    if chars.len() == 0 {
        -1
    } else if set.contains(chars.last()) {
        chars.len() - 1
    } else {
        last_index_in(set, chars.drop_last())
    }
}

/// Length of the longest run of identifier characters at the end.
pub open spec fn identifier_suffix_len(set: Set<char>, chars: Seq<char>) -> nat
    decreases chars.len(),
{
    if chars.len() > 0 && set.contains(chars.last()) {
        1 + identifier_suffix_len(set, chars.drop_last())
    } else {
        0
    }
}

/// The identifier being typed at the end of the text, as a plain completion.
pub open spec fn identifier_prefix_spec(e: PrefixExtractorView, chars: Seq<char>) -> (
    Seq<char>,
    bool,
) {
    (chars.subrange(chars.len() - identifier_suffix_len(e.identifier, chars), chars.len() as int), false)
}

/// What follows the last trigger character, as a member completion; the
/// identifier being typed when there is no trigger character.
pub open spec fn trigger_prefix_spec(e: PrefixExtractorView, chars: Seq<char>) -> (
    Seq<char>,
    bool,
) {
    let i = last_index_in(e.trigger, chars);
    if i >= 0 {
        (chars.subrange(i + 1, chars.len() as int), true)
    } else {
        identifier_prefix_spec(e, chars)
    }
}

/// The characters of a line before a byte position.
pub open spec fn chars_before_byte(line: Seq<char>, col: int) -> Seq<char> {
    decode_utf8(encode_utf8(line).subrange(0, col))
}

/// The completion prefix at a byte column of a line and whether it follows a
/// trigger character.
pub open spec fn extract_prefix_spec(e: PrefixExtractorView, line: Seq<char>, cursor_col: int) -> (
    Seq<char>,
    bool,
) {
    if cursor_col == 0 || line.len() == 0 {
        (seq![], false)
    } else {
        let n = encode_utf8(line).len() as int;
        let chars = chars_before_byte(line, if cursor_col < n { cursor_col } else { n });
        if chars.len() == 0 {
            (seq![], false)
        } else if in_trigger_context(e, chars) {
            trigger_prefix_spec(e, chars)
        } else {
            identifier_prefix_spec(e, chars)
        }
    }
}

/// The classes after configuring for a language.
pub open spec fn configure_spec(e: PrefixExtractorView, language: Seq<char>) -> PrefixExtractorView {
    if language == "rust"@ {
        PrefixExtractorView { trigger: e.trigger.insert(':'), ..e }
    } else if language == "javascript"@ || language == "typescript"@ {
        PrefixExtractorView {
            identifier: e.identifier.insert('$'),
            trigger: e.trigger.insert('.'),
            ..e
        }
    } else if language == "css"@ || language == "scss"@ || language == "less"@ {
        PrefixExtractorView {
            identifier: e.identifier.insert('-'),
            trigger: e.trigger.insert(':'),
            ..e
        }
    } else if language == "php"@ {
        PrefixExtractorView {
            identifier: e.identifier.insert('$'),
            trigger: e.trigger.insert('-'),
            ..e
        }
    } else if language == "c"@ || language == "cpp"@ {
        PrefixExtractorView { trigger: e.trigger.insert('-').insert(':'), ..e }
    } else {
        e
    }
}

impl PrefixExtractor {
    /// The default classes: identifier characters are ASCII letters, digits,
    /// `_`, `-`, `$` and `@`; triggers are `.`, `:` and `>`; separators are
    /// whitespace, brackets, `,` and `;`.
    pub fn new() -> (r: PrefixExtractor)
        ensures
            r@.identifier == default_identifier_chars(),
            r@.trigger == default_trigger_chars(),
            r@.separator == default_separator_chars(),
    {
        let mut identifier_chars = CharSet::new();
        identifier_chars.insert_range(97, 122);
        identifier_chars.insert_range(65, 90);
        identifier_chars.insert_range(48, 57);
        identifier_chars.insert('_');
        identifier_chars.insert('-');
        identifier_chars.insert('$');
        identifier_chars.insert('@');
        proof {
            assert('a' as int == 97 && 'z' as int == 122);
            assert('A' as int == 65 && 'Z' as int == 90);
            assert('0' as int == 48 && '9' as int == 57);
            assert(identifier_chars@ =~= default_identifier_chars());
        }
        let mut trigger_chars = CharSet::new();
        trigger_chars.insert('.');
        trigger_chars.insert(':');
        trigger_chars.insert('>');
        let mut separator_chars = CharSet::new();
        separator_chars.insert(' ');
        separator_chars.insert('\t');
        separator_chars.insert('\n');
        separator_chars.insert('(');
        separator_chars.insert(')');
        separator_chars.insert('[');
        separator_chars.insert(']');
        separator_chars.insert('{');
        separator_chars.insert('}');
        separator_chars.insert(',');
        separator_chars.insert(';');
        proof {
            assert(trigger_chars@ =~= default_trigger_chars());
            assert(separator_chars@ =~= default_separator_chars());
        }
        PrefixExtractor { identifier_chars, trigger_chars, separator_chars }
    }

    /// The completion prefix of `line_text` before byte `cursor_col`, and
    /// whether it follows a trigger character.
    pub fn extract_prefix(&self, line_text: &str, cursor_col: usize) -> (r: (String, bool))
        requires
            line_text.spec_bytes().len() <= usize::MAX,
            cursor_col < line_text.spec_bytes().len() ==> is_char_boundary(
                line_text.spec_bytes(),
                cursor_col as int,
            ),
        ensures
            (r.0@, r.1) == extract_prefix_spec(self@, line_text@, cursor_col as int),
    {
        if cursor_col == 0 || line_text.is_empty() {
            return (String::new(), false);
        }
        let n = line_text.len();
        let mid = if cursor_col < n {
            cursor_col
        } else {
            n
        };
        proof {
            vstd::utf8::encode_utf8_valid_utf8(line_text@);
            vstd::utf8::is_char_boundary_start_end_of_seq(line_text.spec_bytes());
        }
        let (before, _) = line_text.split_at(mid);
        let chars = chars_of(before);
        assert(chars@ == chars_before_byte(line_text@, mid as int));
        if chars.len() == 0 {
            return (String::new(), false);
        }
        if self.is_trigger_context(chars.as_slice()) {
            self.extract_trigger_prefix(chars.as_slice())
        } else {
            self.extract_identifier_prefix(chars.as_slice())
        }
    }

    /// Whether, walking back from the end, a trigger character comes before any separator.
    pub fn is_trigger_context(&self, chars: &[char]) -> (r: bool)
        ensures
            r == in_trigger_context(self@, chars@),
    {
        let mut i: usize = chars.len();
        assert(chars@.subrange(0, i as int) =~= chars@);
        while i > 0
            invariant
                i <= chars.len(),
                in_trigger_context(self@, chars@) == in_trigger_context(
                    self@,
                    chars@.subrange(0, i as int),
                ),
            decreases i,
        {
            let c = chars[i - 1];
            assert(chars@.subrange(0, i as int).drop_last() =~= chars@.subrange(0, i - 1));
            if self.trigger_chars.contains(c) {
                return true;
            }
            if self.separator_chars.contains(c) {
                return false;
            }
            i = i - 1;
        }
        false
    }

    /// What follows the last trigger character, marked as a member
    /// completion; the identifier prefix when there is no trigger character.
    pub fn extract_trigger_prefix(&self, chars: &[char]) -> (r: (String, bool))
        ensures
            (r.0@, r.1) == trigger_prefix_spec(self@, chars@),
    {
        let mut i: usize = chars.len();
        assert(chars@.subrange(0, i as int) =~= chars@);
        while i > 0
            invariant
                i <= chars.len(),
                last_index_in(self@.trigger, chars@) == last_index_in(
                    self@.trigger,
                    chars@.subrange(0, i as int),
                ),
            decreases i,
        {
            assert(chars@.subrange(0, i as int).drop_last() =~= chars@.subrange(0, i - 1));
            if self.trigger_chars.contains(chars[i - 1]) {
                let rest = copy_from(chars, i);
                return (string_of(rest.as_slice()), true);
            }
            i = i - 1;
        }
        self.extract_identifier_prefix(chars)
    }

    /// The identifier being typed at the end, marked as a plain completion.
    pub fn extract_identifier_prefix(&self, chars: &[char]) -> (r: (String, bool))
        ensures
            (r.0@, r.1) == identifier_prefix_spec(self@, chars@),
    {
        let mut start: usize = chars.len();
        assert(chars@.subrange(0, start as int) =~= chars@);
        while start > 0 && self.identifier_chars.contains(chars[start - 1])
            invariant
                start <= chars.len(),
                identifier_suffix_len(self@.identifier, chars@) == (chars.len() - start)
                    + identifier_suffix_len(self@.identifier, chars@.subrange(0, start as int)),
            decreases start,
        {
            assert(chars@.subrange(0, start as int).drop_last() =~= chars@.subrange(
                0,
                start - 1,
            ));
            start = start - 1;
        }
        assert(identifier_suffix_len(self@.identifier, chars@.subrange(0, start as int)) == 0);
        let rest = copy_from(chars, start);
        (string_of(rest.as_slice()), false)
    }

    /// Adds the identifier and trigger characters of a language.
    pub fn configure_for_language(&mut self, language: &str)
        ensures
            final(self)@ == configure_spec(old(self)@, language@),
    {
        if str_equal(language, "rust") {
            self.trigger_chars.insert(':');
        } else if str_equal(language, "javascript") || str_equal(language, "typescript") {
            self.identifier_chars.insert('$');
            self.trigger_chars.insert('.');
        } else if str_equal(language, "css") || str_equal(language, "scss") || str_equal(
            language,
            "less",
        ) {
            self.identifier_chars.insert('-');
            self.trigger_chars.insert(':');
        } else if str_equal(language, "php") {
            self.identifier_chars.insert('$');
            self.trigger_chars.insert('-');
        } else if str_equal(language, "c") || str_equal(language, "cpp") {
            self.trigger_chars.insert('-');
            self.trigger_chars.insert(':');
        }
    }
}

fn copy_from(chars: &[char], from: usize) -> (r: Vec<char>)
    requires
        from <= chars.len(),
    ensures
        r@ == chars@.subrange(from as int, chars.len() as int),
{
    let mut r: Vec<char> = Vec::new();
    let mut i: usize = from;
    while i < chars.len()
        invariant
            from <= i <= chars.len(),
            r@ == chars@.subrange(from as int, i as int),
        decreases chars.len() - i,
    {
        r.push(chars[i]);
        i = i + 1;
        assert(r@ =~= chars@.subrange(from as int, i as int));
    }
    r
}

proof fn lemma_last_index_in(set: Set<char>, chars: Seq<char>)
    ensures
        -1 <= last_index_in(set, chars) < chars.len(),
        last_index_in(set, chars) >= 0 ==> set.contains(chars[last_index_in(set, chars)]),
        forall|k: int|
            last_index_in(set, chars) < k < chars.len() ==> !set.contains(#[trigger] chars[k]),
    decreases chars.len(),
{
    if chars.len() > 0 && !set.contains(chars.last()) {
        let t = chars.drop_last();
        lemma_last_index_in(set, t);
        assert forall|k: int| last_index_in(set, chars) < k < chars.len() implies !set.contains(
            #[trigger] chars[k],
        ) by {
            if k < chars.len() - 1 {
                assert(chars[k] == t[k]);
            }
        }
        if last_index_in(set, t) >= 0 {
            assert(chars[last_index_in(set, t)] == t[last_index_in(set, t)]);
        }
    }
}

proof fn lemma_identifier_suffix_len(set: Set<char>, chars: Seq<char>)
    ensures
        identifier_suffix_len(set, chars) <= chars.len(),
        forall|k: int|
            chars.len() - identifier_suffix_len(set, chars) <= k < chars.len() ==> set.contains(
                #[trigger] chars[k],
            ),
    decreases chars.len(),
{
    if chars.len() > 0 && set.contains(chars.last()) {
        let t = chars.drop_last();
        lemma_identifier_suffix_len(set, t);
        assert forall|k: int|
            chars.len() - identifier_suffix_len(set, chars) <= k < chars.len() implies set.contains(
            #[trigger] chars[k],
        ) by {
            if k < chars.len() - 1 {
                assert(chars[k] == t[k]);
            }
        }
    }
}

/// The completion prefix is the end of the text before the cursor, and that
/// text is the start of the line: a member completion's prefix holds no
/// trigger character, a plain completion's prefix holds only identifier characters.
pub proof fn lemma_prefix_is_end_of_text_before_cursor(
    e: PrefixExtractorView,
    line: Seq<char>,
    cursor_col: int,
)
    requires
        0 <= cursor_col,
        cursor_col < encode_utf8(line).len() ==> is_char_boundary(encode_utf8(line), cursor_col),
    ensures
        ({
            let n = encode_utf8(line).len() as int;
            let before = chars_before_byte(line, if cursor_col < n { cursor_col } else { n });
            let (prefix, is_trigger) = extract_prefix_spec(e, line, cursor_col);
            &&& before.len() <= line.len()
            &&& before == line.subrange(0, before.len() as int)
            &&& prefix.len() <= before.len()
            &&& prefix == before.subrange(before.len() - prefix.len(), before.len() as int)
            &&& is_trigger ==> forall|k: int| 0 <= k < prefix.len() ==> !e.trigger.contains(#[trigger] prefix[k])
            &&& !is_trigger ==> forall|k: int| 0 <= k < prefix.len() ==> e.identifier.contains(#[trigger] prefix[k])
        }),
{
    let bytes = encode_utf8(line);
    let n = bytes.len() as int;
    let mid = if cursor_col < n {
        cursor_col
    } else {
        n
    };
    let before = chars_before_byte(line, mid);
    vstd::utf8::encode_utf8_valid_utf8(line);
    vstd::utf8::is_char_boundary_start_end_of_seq(bytes);
    vstd::utf8::decode_utf8_split(bytes, mid);
    assert(line == before + decode_utf8(bytes.subrange(mid, n)));
    assert(before =~= line.subrange(0, before.len() as int));
    lemma_last_index_in(e.trigger, before);
    lemma_identifier_suffix_len(e.identifier, before);
    let (prefix, is_trigger) = extract_prefix_spec(e, line, cursor_col);
    if cursor_col == 0 || line.len() == 0 || before.len() == 0 {
        assert(prefix =~= before.subrange(before.len() - prefix.len(), before.len() as int));
    } else {
        let i = last_index_in(e.trigger, before);
        if in_trigger_context(e, before) && i >= 0 {
            assert forall|k: int| 0 <= k < prefix.len() implies !e.trigger.contains(
                #[trigger] prefix[k],
            ) by {
                assert(prefix[k] == before[i + 1 + k]);
            }
        } else {
            let m = identifier_suffix_len(e.identifier, before);
            assert forall|k: int| 0 <= k < prefix.len() implies e.identifier.contains(
                #[trigger] prefix[k],
            ) by {
                assert(prefix[k] == before[before.len() - m + k]);
            }
        }
    }
}

/// Configuring for the same language twice is configuring once.
pub proof fn lemma_configure_idempotent(e: PrefixExtractorView, language: Seq<char>)
    ensures
        configure_spec(configure_spec(e, language), language) == configure_spec(e, language),
{
    let once = configure_spec(e, language);
    let twice = configure_spec(once, language);
    assert(twice.identifier =~= once.identifier);
    assert(twice.trigger =~= once.trigger);
    assert(twice.separator =~= once.separator);
}

/// Configuring for a language only adds characters to the classes.
pub proof fn lemma_configure_only_adds(e: PrefixExtractorView, language: Seq<char>)
    ensures
        e.identifier.subset_of(configure_spec(e, language).identifier),
        e.trigger.subset_of(configure_spec(e, language).trigger),
        e.separator == configure_spec(e, language).separator,
{
}

} // verus!
