//! The completion menu: its items, filtering them by the typed text, and a
//! selection that moves through the shown items and stays on screen.
use vstd::prelude::*;
use crate::text::{chars_of, owned, string_of};

verus! {

/// What `str::to_lowercase` gives for a text with a character beyond
/// ASCII (Unicode lowercase mapping).
pub uninterp spec fn lowercase_beyond_ascii(s: Seq<char>) -> Seq<char>;

/// Whether every character of a text is ASCII.
pub open spec fn all_ascii(s: Seq<char>) -> bool {
    forall|i: int| 0 <= i < s.len() ==> (#[trigger] s[i] as u32) < 0x80
}

/// An ASCII letter `A` to `Z` lowered to `a` to `z`; any other character
/// as it is.
pub open spec fn ascii_lower(c: char) -> char {
    if 0x41 <= (c as u32) && (c as u32) <= 0x5A {
        ((c as u32) + 32) as char
    } else {
        c
    }
}

/// The lowercase of a text (what `str::to_lowercase` gives): an ASCII text
/// has each letter lowered.
pub open spec fn lowercase(s: Seq<char>) -> Seq<char> {
    if all_ascii(s) {
        s.map_values(|c: char| ascii_lower(c))
    } else {
        lowercase_beyond_ascii(s)
    }
}

/// Calls `str::to_lowercase` on a text with a character beyond ASCII; the
/// contract only names the result.
#[verifier::external_body]
fn lowercase_beyond_ascii_of(s: &str) -> (r: String)
    requires
        !all_ascii(s@),
    ensures
        r@ == lowercase_beyond_ascii(s@),
{
    s.to_lowercase()
}

/// The lowercase of a text.
pub(crate) fn to_lowercase_of(s: &str) -> (r: String)
    ensures
        r@ == lowercase(s@),
{
    let chars = chars_of(s);
    let mut out: Vec<char> = Vec::new();
    let mut i: usize = 0;
    while i < chars.len()
        invariant
            i <= chars.len(),
            chars@ == s@,
            forall|k: int| 0 <= k < i ==> (#[trigger] chars@[k] as u32) < 0x80,
            out@ == chars@.subrange(0, i as int).map_values(|c: char| ascii_lower(c)),
        decreases chars.len() - i,
    {
        let c = chars[i];
        let v = c as u32;
        if v >= 0x80 {
            assert(!all_ascii(s@)) by {
                assert(!((s@[i as int] as u32) < 0x80));
            }
            return lowercase_beyond_ascii_of(s);
        }
        let lowered = if 0x41 <= v && v <= 0x5A {
            ((v as u8) + 32) as char
        } else {
            c
        };
        assert(lowered == ascii_lower(c));
        out.push(lowered);
        i = i + 1;
        assert(out@ =~= chars@.subrange(0, i as int).map_values(|c: char| ascii_lower(c)));
    }
    assert(chars@.subrange(0, chars.len() as int) =~= chars@);
    string_of(out.as_slice())
}

/// Whether `needle` occurs as a contiguous piece of `hay`.
pub open spec fn contains_piece(hay: Seq<char>, needle: Seq<char>) -> bool {
    exists|i: int| 0 <= i && i + needle.len() <= hay.len() && #[trigger] hay.subrange(i, i + needle.len()) == needle
}

fn piece_at(hay: &[char], i: usize, needle: &[char]) -> (r: bool)
    requires
        i + needle.len() <= hay.len(),
    ensures
        r == (hay@.subrange(i as int, i + needle.len()) == needle@),
{
    let mut k: usize = 0;
    while k < needle.len()
        invariant
            k <= needle.len(),
            i + needle.len() <= hay.len(),
            forall|m: int| 0 <= m < k ==> hay@[i + m] == needle@[m],
        decreases needle.len() - k,
    {
        if hay[i + k] != needle[k] {
            assert(hay@.subrange(i as int, i + needle.len())[k as int] != needle@[k as int]);
            return false;
        }
        k = k + 1;
    }
    assert(hay@.subrange(i as int, i + needle.len()) =~= needle@);
    true
}

/// Whether `needle` occurs in `hay`, as `str::contains` answers.
pub fn contains_text(hay: &str, needle: &str) -> (r: bool)
    ensures
        r == contains_piece(hay@, needle@),
{
    let h = chars_of(hay);
    let n = chars_of(needle);
    if n.len() == 0 {
        assert(hay@.subrange(0int, 0int + needle@.len()) =~= needle@);
        return true;
    }
    if n.len() > h.len() {
        return false;
    }
    let mut i: usize = 0;
    while i <= h.len() - n.len()
        invariant
            n.len() <= h.len(),
            i <= h.len() - n.len() + 1,
            h@ == hay@,
            n@ == needle@,
            n.len() >= 1,
            forall|j: int| 0 <= j < i ==> #[trigger] h@.subrange(j, j + n@.len()) != n@,
        decreases h.len() - i,
    {
        if piece_at(h.as_slice(), i, n.as_slice()) {
            return true;
        }
        i = i + 1;
    }
    false
}

/// Kinds of completion items.
#[derive(Clone, Copy, Debug, PartialEq, Eq)]
pub enum CompletionItemKind {
    Text,
    Method,
    Function,
    Constructor,
    Field,
    Variable,
    Class,
    Interface,
    Module,
    Property,
    Unit,
    Value,
    Enum,
    Keyword,
    Snippet,
    Color,
    File,
    Reference,
    Folder,
    EnumMember,
    Constant,
    Struct,
    Event,
    Operator,
    TypeParameter,
}

/// The symbol shown beside an item of each kind.
pub open spec fn kind_icon(k: CompletionItemKind) -> Seq<char> {
    match k {
        CompletionItemKind::Text => "📝"@,
        CompletionItemKind::Method => "🔧"@,
        CompletionItemKind::Function => "ƒ"@,
        CompletionItemKind::Constructor => "🏗️"@,
        CompletionItemKind::Field => "🏷️"@,
        CompletionItemKind::Variable => "📦"@,
        CompletionItemKind::Class => "🏛️"@,
        CompletionItemKind::Interface => "🔌"@,
        CompletionItemKind::Module => "📚"@,
        CompletionItemKind::Property => "🔧"@,
        CompletionItemKind::Unit => "📏"@,
        CompletionItemKind::Value => "💎"@,
        CompletionItemKind::Enum => "🔢"@,
        CompletionItemKind::Keyword => "🔑"@,
        CompletionItemKind::Snippet => "✂️"@,
        CompletionItemKind::Color => "🎨"@,
        CompletionItemKind::File => "📄"@,
        CompletionItemKind::Reference => "🔗"@,
        CompletionItemKind::Folder => "📁"@,
        CompletionItemKind::EnumMember => "🔸"@,
        CompletionItemKind::Constant => "🔒"@,
        CompletionItemKind::Struct => "🏗️"@,
        CompletionItemKind::Event => "⚡"@,
        CompletionItemKind::Operator => "➕"@,
        CompletionItemKind::TypeParameter => "🏷️"@,
    }
}

impl CompletionItemKind {
    /// The symbol shown beside an item of this kind.
    pub fn icon(&self) -> (r: &'static str)
        ensures
            r@ == kind_icon(*self),
    {
        match self {
            CompletionItemKind::Text => "📝",
            CompletionItemKind::Method => "🔧",
            CompletionItemKind::Function => "ƒ",
            CompletionItemKind::Constructor => "🏗️",
            CompletionItemKind::Field => "🏷️",
            CompletionItemKind::Variable => "📦",
            CompletionItemKind::Class => "🏛️",
            CompletionItemKind::Interface => "🔌",
            CompletionItemKind::Module => "📚",
            CompletionItemKind::Property => "🔧",
            CompletionItemKind::Unit => "📏",
            CompletionItemKind::Value => "💎",
            CompletionItemKind::Enum => "🔢",
            CompletionItemKind::Keyword => "🔑",
            CompletionItemKind::Snippet => "✂️",
            CompletionItemKind::Color => "🎨",
            CompletionItemKind::File => "📄",
            CompletionItemKind::Reference => "🔗",
            CompletionItemKind::Folder => "📁",
            CompletionItemKind::EnumMember => "🔸",
            CompletionItemKind::Constant => "🔒",
            CompletionItemKind::Struct => "🏗️",
            CompletionItemKind::Event => "⚡",
            CompletionItemKind::Operator => "➕",
            CompletionItemKind::TypeParameter => "🏷️",
        }
    }
}

/// One suggestion of the completion menu.
#[derive(Clone, Debug, PartialEq)]
pub struct CompletionItem {
    pub label: String,
    pub kind: CompletionItemKind,
    pub detail: Option<String>,
    pub documentation: Option<String>,
    pub insert_text: Option<String>,
    pub filter_text: Option<String>,
    pub sort_text: Option<String>,
    pub preselect: bool,
}

impl CompletionItem {
    /// An item with a label and a kind, and nothing else.
    pub fn new(label: String, kind: CompletionItemKind) -> (r: CompletionItem)
        ensures
            r == (CompletionItem {
                label,
                kind,
                detail: None,
                documentation: None,
                insert_text: None,
                filter_text: None,
                sort_text: None,
                preselect: false,
            }),
    {
        CompletionItem {
            label,
            kind,
            detail: None,
            documentation: None,
            insert_text: None,
            filter_text: None,
            sort_text: None,
            preselect: false,
        }
    }

    /// The item with a detail line.
    pub fn with_detail(self, detail: String) -> (r: CompletionItem)
        ensures
            r == (CompletionItem { detail: Some(detail), ..self }),
    {
        CompletionItem { detail: Some(detail), ..self }
    }

    /// The item with documentation.
    pub fn with_documentation(self, documentation: String) -> (r: CompletionItem)
        ensures
            r == (CompletionItem { documentation: Some(documentation), ..self }),
    {
        CompletionItem { documentation: Some(documentation), ..self }
    }

    /// The item with the text to insert when it differs from the label.
    pub fn with_insert_text(self, insert_text: String) -> (r: CompletionItem)
        ensures
            r == (CompletionItem { insert_text: Some(insert_text), ..self }),
    {
        CompletionItem { insert_text: Some(insert_text), ..self }
    }

    /// The item with the text to filter by when it differs from the label.
    pub fn with_filter_text(self, filter_text: String) -> (r: CompletionItem)
        ensures
            r == (CompletionItem { filter_text: Some(filter_text), ..self }),
    {
        CompletionItem { filter_text: Some(filter_text), ..self }
    }

    /// The item marked to be selected first.
    pub fn preselected(self) -> (r: CompletionItem)
        ensures
            r == (CompletionItem { preselect: true, ..self }),
    {
        CompletionItem { preselect: true, ..self }
    }

    /// The text to insert: the insert text when there is one, else the label.
    pub fn get_insert_text(&self) -> (r: &str)
        ensures
            r@ == match self.insert_text {
                Some(t) => t@,
                None => self.label@,
            },
    {
        match &self.insert_text {
            Some(t) => t.as_str(),
            None => self.label.as_str(),
        }
    }
}

/// The text an item is filtered by: its filter text, or else its label.
pub open spec fn search_text(item: CompletionItem) -> Seq<char> {
    match item.filter_text {
        Some(t) => t@,
        None => item.label@,
    }
}

/// Whether an item matches the typed text: the typed text, lowercased, occurs
/// in the item's search text, lowercased.
pub open spec fn item_matches(item: CompletionItem, filter: Seq<char>) -> bool {
    contains_piece(lowercase(search_text(item)), lowercase(filter))
}

/// The indices, in order, of the items that match a non-empty typed text;
/// every index for an empty one.
pub open spec fn filtered_spec(items: Seq<CompletionItem>, filter: Seq<char>) -> Seq<usize>
    decreases items.len(),
{
    if items.len() == 0 {
        seq![]
    } else {
        let rest = filtered_spec(items.drop_last(), filter);
        if filter.len() == 0 || item_matches(items.last(), filter) {
            rest.push((items.len() - 1) as usize)
        } else {
            rest
        }
    }
}

/// How many items the menu shows at once.
pub const MAX_VISIBLE_ITEMS: usize = 10;

/// The menu's items, the typed text, the matching items and the selection.
pub struct CompletionMenu {
    items: Vec<CompletionItem>,
    filtered_items: Vec<usize>,
    selected_index: usize,
    scroll_offset: usize,
    filter_text: String,
    max_visible_items: usize,
}

/// The view of the menu.
pub struct CompletionMenuView {
    pub items: Seq<CompletionItem>,
    pub filtered: Seq<usize>,
    pub selected: usize,
    pub scroll: usize,
    pub filter: Seq<char>,
    pub max_visible: usize,
}

impl View for CompletionMenu {
    type V = CompletionMenuView;

    closed spec fn view(&self) -> CompletionMenuView {
        CompletionMenuView {
            items: self.items@,
            filtered: self.filtered_items@,
            selected: self.selected_index,
            scroll: self.scroll_offset,
            filter: self.filter_text@,
            max_visible: self.max_visible_items,
        }
    }
}

/// Whether the selected item is on screen: the selection is within the
/// matching items and between the first shown item and the last.
pub open spec fn selection_visible(m: CompletionMenuView) -> bool {
    m.filtered.len() > 0 ==> m.selected < m.filtered.len() && m.scroll <= m.selected
        && m.selected < m.scroll + MAX_VISIBLE_ITEMS
}

/// The menu state is consistent: the matching items are those of the typed
/// text, the selected item is on screen, and the menu shows
/// [`MAX_VISIBLE_ITEMS`] items at once.
pub open spec fn menu_well_formed(m: CompletionMenuView) -> bool {
    &&& m.filtered == filtered_spec(m.items, m.filter)
    &&& selection_visible(m)
    &&& m.max_visible == MAX_VISIBLE_ITEMS
}

/// The scroll position that keeps the selection on screen after it moved.
pub open spec fn scroll_for(selected: int, scroll: int) -> int {
    if selected < scroll {
        selected
    } else if selected >= scroll + MAX_VISIBLE_ITEMS {
        selected - MAX_VISIBLE_ITEMS + 1
    } else {
        scroll
    }
}

impl CompletionMenu {
    /// Whether the state is consistent (see [`menu_well_formed`]).
    pub open spec fn well_formed(&self) -> bool {
        menu_well_formed(self@)
    }

    fn compute_filtered(items: &Vec<CompletionItem>, filter_text: &String) -> (r: Vec<usize>)
        ensures
            r@ == filtered_spec(items@, filter_text@),
    {
        let mut r: Vec<usize> = Vec::new();
        let filter_lower = to_lowercase_of(filter_text.as_str());
        let empty = filter_text.as_str().is_empty();
        let mut i: usize = 0;
        while i < items.len()
            invariant
                i <= items.len(),
                empty == (filter_text@.len() == 0),
                filter_lower@ == lowercase(filter_text@),
                r@ == filtered_spec(items@.subrange(0, i as int), filter_text@),
            decreases items.len() - i,
        {
            proof {
                assert(items@.subrange(0, i + 1).drop_last() =~= items@.subrange(0, i as int));
            }
            let keep = if empty {
                true
            } else {
                let item = &items[i];
                let search = match &item.filter_text {
                    Some(t) => t.as_str(),
                    None => item.label.as_str(),
                };
                let lowered = to_lowercase_of(search);
                contains_text(lowered.as_str(), filter_lower.as_str())
            };
            if keep {
                r.push(i);
            }
            i = i + 1;
        }
        assert(items@.subrange(0, items.len() as int) =~= items@);
        r
    }

    /// A menu over the items with nothing typed: every item matches and the first is selected.
    pub fn new(items: Vec<CompletionItem>) -> (r: CompletionMenu)
        ensures
            r.well_formed(),
            r@.items == items@,
            r@.filter == Seq::<char>::empty(),
            r@.filtered == filtered_spec(items@, Seq::<char>::empty()),
            r@.selected == 0,
            r@.scroll == 0,
    {
        let filter_text = String::new();
        let filtered_items = Self::compute_filtered(&items, &filter_text);
        CompletionMenu {
            items,
            filtered_items,
            selected_index: 0,
            scroll_offset: 0,
            filter_text,
            max_visible_items: MAX_VISIBLE_ITEMS,
        }
    }

    /// Filters the items by new typed text and selects the first match.
    pub fn update_filter(&mut self, filter_text: String)
        ensures
            final(self).well_formed(),
            final(self)@.items == old(self)@.items,
            final(self)@.filter == filter_text@,
            final(self)@.filtered == filtered_spec(old(self)@.items, filter_text@),
            final(self)@.selected == 0,
            final(self)@.scroll == 0,
    {
        self.filter_text = filter_text;
        self.filtered_items = Self::compute_filtered(&self.items, &self.filter_text);
        self.selected_index = 0;
        self.scroll_offset = 0;
        self.max_visible_items = MAX_VISIBLE_ITEMS;
    }

    /// Moves the selection by `delta` items, staying within the matching
    /// items, and scrolls just enough to keep it on screen.
    pub fn move_selection(&mut self, delta: isize)
        requires
            old(self).well_formed(),
            delta != isize::MIN,
            old(self)@.selected + delta <= usize::MAX,
        ensures
            final(self).well_formed(),
            final(self)@.items == old(self)@.items,
            final(self)@.filtered == old(self)@.filtered,
            final(self)@.filter == old(self)@.filter,
            old(self)@.filtered.len() == 0 ==> final(self)@ == old(self)@,
            old(self)@.filtered.len() > 0 ==> {
                let target = if delta > 0 {
                    if old(self)@.selected + delta < old(self)@.filtered.len() {
                        old(self)@.selected + delta
                    } else {
                        old(self)@.filtered.len() - 1
                    }
                } else if old(self)@.selected + delta >= 0 {
                    old(self)@.selected + delta
                } else {
                    0
                };
                &&& final(self)@.selected == target
                &&& final(self)@.scroll == scroll_for(target, old(self)@.scroll as int)
            },
    {
        if self.filtered_items.len() == 0 {
            return;
        }
        let last = self.filtered_items.len() - 1;
        let new_index = if delta > 0 {
            let forward = self.selected_index + (delta as usize);
            if forward < last {
                forward
            } else {
                last
            }
        } else {
            self.selected_index.saturating_sub((-delta) as usize)
        };
        self.selected_index = new_index;
        if self.selected_index < self.scroll_offset {
            self.scroll_offset = self.selected_index;
        } else if self.selected_index - self.scroll_offset >= self.max_visible_items {
            self.scroll_offset = self.selected_index - self.max_visible_items + 1;
        }
    }

    /// Selects the first matching item.
    pub fn move_to_first(&mut self)
        requires
            old(self).well_formed(),
        ensures
            final(self).well_formed(),
            old(self)@.filtered.len() == 0 ==> final(self)@ == old(self)@,
            old(self)@.filtered.len() > 0 ==> final(self)@ == (CompletionMenuView {
                selected: 0,
                scroll: 0,
                ..old(self)@
            }),
    {
        if self.filtered_items.len() == 0 {
            return;
        }
        self.selected_index = 0;
        self.scroll_offset = 0;
    }

    /// Selects the last matching item and scrolls to show the last page.
    pub fn move_to_last(&mut self)
        requires
            old(self).well_formed(),
        ensures
            final(self).well_formed(),
            old(self)@.filtered.len() == 0 ==> final(self)@ == old(self)@,
            old(self)@.filtered.len() > 0 ==> final(self)@ == (CompletionMenuView {
                selected: (old(self)@.filtered.len() - 1) as usize,
                scroll: if old(self)@.filtered.len() > MAX_VISIBLE_ITEMS {
                    (old(self)@.filtered.len() - MAX_VISIBLE_ITEMS) as usize
                } else {
                    0
                },
                ..old(self)@
            }),
    {
        if self.filtered_items.len() == 0 {
            return;
        }
        self.selected_index = self.filtered_items.len() - 1;
        if self.filtered_items.len() > self.max_visible_items {
            self.scroll_offset = self.filtered_items.len() - self.max_visible_items;
        } else {
            self.scroll_offset = 0;
        }
    }

    /// The index of the selected item among all items, if any item matches.
    pub fn selected_item(&self) -> (r: Option<usize>)
        requires
            self.well_formed(),
        ensures
            self@.filtered.len() == 0 ==> r is None,
            self@.filtered.len() > 0 ==> r == Some(self@.filtered[self@.selected as int]),
    {
        if self.selected_index < self.filtered_items.len() {
            Some(self.filtered_items[self.selected_index])
        } else {
            None
        }
    }

    /// Whether no item matches.
    pub fn is_empty(&self) -> (r: bool)
        ensures
            r == (self@.filtered.len() == 0),
    {
        self.filtered_items.len() == 0
    }

    /// How many items match.
    pub fn item_count(&self) -> (r: usize)
        ensures
            r == self@.filtered.len(),
    {
        self.filtered_items.len()
    }

    /// The matching item indices, in order.
    pub fn filtered_items(&self) -> (r: &Vec<usize>)
        ensures
            r@ == self@.filtered,
    {
        &self.filtered_items
    }

    /// The first item shown.
    pub fn scroll_offset(&self) -> (r: usize)
        ensures
            r == self@.scroll,
    {
        self.scroll_offset
    }

    /// The selected position among the matching items.
    pub fn selected_index(&self) -> (r: usize)
        ensures
            r == self@.selected,
    {
        self.selected_index
    }
}

/// The matching indices point at items, in increasing order.
pub proof fn lemma_filtered_indices_in_range(items: Seq<CompletionItem>, filter: Seq<char>)
    requires
        items.len() <= usize::MAX,
    ensures
        forall|k: int| 0 <= k < filtered_spec(items, filter).len() ==> #[trigger] filtered_spec(items, filter)[k] < items.len(),
        forall|j: int, k: int| 0 <= j < k < filtered_spec(items, filter).len() ==> filtered_spec(items, filter)[j] < filtered_spec(items, filter)[k],
        filter.len() == 0 ==> filtered_spec(items, filter).len() == items.len(),
    decreases items.len(),
{
    if items.len() > 0 {
        let rest = filtered_spec(items.drop_last(), filter);
        lemma_filtered_indices_in_range(items.drop_last(), filter);
        let all = filtered_spec(items, filter);
        let last = (items.len() - 1) as usize;
        if filter.len() == 0 || item_matches(items.last(), filter) {
            assert(all == rest.push(last));
            assert forall|k: int| 0 <= k < all.len() implies #[trigger] all[k] < items.len() by {
                if k < rest.len() {
                    assert(all[k] == rest[k]);
                }
            }
            assert forall|j: int, k: int| 0 <= j < k < all.len() implies all[j] < all[k] by {
                assert(all[j] == rest[j]);
                assert(rest[j] < items.drop_last().len());
                if k < rest.len() {
                    assert(all[k] == rest[k]);
                    assert(rest[j] < rest[k]);
                }
            }
        }
    }
}

/// Lowering an ASCII text keeps it ASCII and of the same length, and
/// lowering it again changes nothing.
proof fn lemma_lowercase_ascii(s: Seq<char>)
    requires
        all_ascii(s),
    ensures
        all_ascii(lowercase(s)),
        lowercase(s).len() == s.len(),
        lowercase(lowercase(s)) == lowercase(s),
{
    let l = s.map_values(|c: char| ascii_lower(c));
    assert forall|i: int| 0 <= i < l.len() implies (#[trigger] l[i] as u32) < 0x80 && ascii_lower(l[i]) == l[i] by {
        assert((s[i] as u32) < 0x80);
    }
    assert(l.map_values(|c: char| ascii_lower(c)) =~= l);
}

/// Typed texts that differ only in case filter alike: whether an item
/// matches depends on the typed text only through its lowercase.
pub proof fn lemma_matching_ignores_case(item: CompletionItem, f: Seq<char>, g: Seq<char>)
    requires
        lowercase(f) == lowercase(g),
    ensures
        item_matches(item, f) == item_matches(item, g),
{
}

/// For an ASCII typed text, an item matches it exactly when it matches the
/// text lowered; and an item whose (ASCII) search text holds the typed text
/// as it was typed always matches.
pub proof fn lemma_matching_lowered_text(item: CompletionItem, f: Seq<char>)
    requires
        all_ascii(f),
    ensures
        item_matches(item, f) == item_matches(item, lowercase(f)),
        all_ascii(search_text(item)) && contains_piece(search_text(item), f) ==> item_matches(item, f),
{
    lemma_lowercase_ascii(f);
    let st = search_text(item);
    if all_ascii(st) && contains_piece(st, f) {
        let i = choose|i: int| 0 <= i && i + f.len() <= st.len() && #[trigger] st.subrange(i, i + f.len()) == f;
        lemma_lowercase_ascii(st);
        let ls = lowercase(st);
        assert(ls.subrange(i, i + f.len()) =~= lowercase(f)) by {
            assert forall|k: int| 0 <= k < f.len() implies #[trigger] ls.subrange(i, i + f.len())[k] == lowercase(f)[k] by {
                assert(st.subrange(i, i + f.len())[k] == st[i + k]);
            }
        }
        assert(contains_piece(ls, lowercase(f)));
    }
}

/// Which items the filter keeps: index `k` is listed exactly when it is an
/// item's index and the typed text is empty or the item matches it.
pub proof fn lemma_filtered_membership(items: Seq<CompletionItem>, f: Seq<char>, k: int)
    requires
        items.len() <= usize::MAX,
    ensures
        filtered_spec(items, f).contains(k as usize) && 0 <= k <= usize::MAX <==> (0 <= k < items.len() && (f.len() == 0
            || item_matches(items[k], f))),
    decreases items.len(),
{
    if items.len() > 0 {
        let rest = items.drop_last();
        lemma_filtered_membership(rest, f, k);
        lemma_filtered_indices_in_range(rest, f);
        let fr = filtered_spec(rest, f);
        let all = filtered_spec(items, f);
        let last = (items.len() - 1) as usize;
        if 0 <= k < rest.len() {
            assert(items[k] == rest[k]);
        }
        if f.len() == 0 || item_matches(items.last(), f) {
            assert(all == fr.push(last));
            if k == items.len() - 1 {
                assert(all[fr.len() as int] == last);
            }
            if all.contains(k as usize) && 0 <= k <= usize::MAX && k != items.len() - 1 {
                let j = choose|j: int| 0 <= j < all.len() && all[j] == k as usize;
                if j < fr.len() {
                    assert(fr[j] == all[j]);
                }
            }
            if 0 <= k < rest.len() && fr.contains(k as usize) {
                let j = choose|j: int| 0 <= j < fr.len() && fr[j] == k as usize;
                assert(all[j] == fr[j]);
            }
        } else {
            if fr.contains(k as usize) {
                let j = choose|j: int| 0 <= j < fr.len() && fr[j] == k as usize;
                assert(fr[j] < rest.len());
            }
        }
    }
}

/// Filtering ignores case: typed texts that differ only in case (and are
/// both empty or both not) keep the same items; and with an ASCII typed
/// text, every item whose ASCII search text holds the text as typed is
/// kept.
pub proof fn lemma_filter_ignores_case(items: Seq<CompletionItem>, f: Seq<char>, g: Seq<char>, k: int)
    requires
        items.len() <= usize::MAX,
        lowercase(f) == lowercase(g),
        (f.len() == 0) == (g.len() == 0),
    ensures
        filtered_spec(items, f) == filtered_spec(items, g),
        all_ascii(f) && 0 <= k < items.len() && all_ascii(search_text(items[k])) && contains_piece(
            search_text(items[k]),
            f,
        ) ==> filtered_spec(items, f).contains(k as usize),
    decreases items.len(),
{
    if items.len() > 0 {
        lemma_filter_ignores_case(items.drop_last(), f, g, k);
        lemma_matching_ignores_case(items.last(), f, g);
    }
    if all_ascii(f) && 0 <= k < items.len() {
        lemma_matching_lowered_text(items[k], f);
        lemma_filtered_membership(items, f, k);
    }
}

} // verus!
