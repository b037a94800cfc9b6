//! The open buffers as the interface lists them: whether the tab bar shows,
//! and the rows of the buffer picker, most recently focused first, each
//! reading like a terminal listing: number, flags, path.
use vstd::prelude::*;
use vstd::multiset::Multiset;
use crate::picker::{path_relative_to, strip_prefix_of};
use crate::text::{
    append_chars, char_is_numeric, chars_of, is_numeric_char, owned, string_of, trim, trim_chars,
};

verus! {

broadcast use vstd::seq_lib::group_to_multiset_ensures;

/// When the tab bar shows.
#[derive(Debug, Clone, Copy, PartialEq, Eq)]
pub enum BufferLineMode {
    Never,
    Always,
    /// Only when more than one document is open.
    Multiple,
}

/// Whether the tab bar shows for a number of open documents.
pub fn should_show_tabs(mode: BufferLineMode, document_count: usize) -> (r: bool)
    ensures
        r == match mode {
            BufferLineMode::Never => false,
            BufferLineMode::Always => true,
            BufferLineMode::Multiple => document_count > 1,
        },
{
    match mode {
        BufferLineMode::Never => false,
        BufferLineMode::Always => true,
        BufferLineMode::Multiple => document_count > 1,
    }
}

/// Whether a text starts with another.
pub open spec fn starts_with(s: Seq<char>, p: Seq<char>) -> bool {
    p.len() <= s.len() && s.subrange(0, p.len() as int) == p
}

/// The first position of `c`, or -1.
pub open spec fn first_pos(s: Seq<char>, c: char) -> int
    decreases s.len(),
{
    if s.len() == 0 {
        -1
    } else if s[0] == c {
        0
    } else {
        let r = first_pos(s.drop_first(), c);
        if r >= 0 { r + 1 } else { -1 }
    }
}

/// The last position of `c`, or -1.
pub open spec fn last_pos(s: Seq<char>, c: char) -> int
    decreases s.len(),
{
    if s.len() == 0 {
        -1
    } else if s.last() == c {
        s.len() - 1
    } else {
        last_pos(s.drop_last(), c)
    }
}

/// The first run of numeric characters, after skipping what is not numeric.
pub open spec fn first_number_run(s: Seq<char>) -> Seq<char>
    decreases s.len(),
{
    if s.len() == 0 {
        s
    } else if !is_numeric_char(s[0]) {
        first_number_run(s.drop_first())
    } else {
        leading_numeric(s)
    }
}

/// The numeric characters at the start.
pub open spec fn leading_numeric(s: Seq<char>) -> Seq<char>
    decreases s.len(),
{
    if s.len() == 0 || !is_numeric_char(s[0]) {
        Seq::empty()
    } else {
        seq![s[0]] + leading_numeric(s.drop_first())
    }
}

/// Whether every character is numeric.
pub open spec fn all_numeric(s: Seq<char>) -> bool {
    forall|i: int| 0 <= i < s.len() ==> is_numeric_char(s[i])
}

/// The number of a document as its displayed id gives it: between the
/// brackets of "DocumentId(...)"; else between the first opening and the
/// last closing bracket (or to the end), trimmed; else the whole text when
/// it is all digits; else the first run of digits.
pub open spec fn document_number_spec(d: Seq<char>) -> Seq<char> {
    if starts_with(d, "DocumentId("@) && d.len() > 0 && d.last() == ')' {
        d.subrange(11, d.len() - 1)
    } else if first_pos(d, '(') >= 0 {
        let start = first_pos(d, '(');
        let end = last_pos(d, ')');
        if end >= 0 {
            trim(d.subrange(start + 1, end))
        } else {
            trim(d.skip(start + 1))
        }
    } else if all_numeric(d) {
        d
    } else {
        first_number_run(d)
    }
}

/// Whether the brackets of a displayed id can be cut between: no closing
/// bracket comes last before the first opening one.
pub open spec fn brackets_in_order(d: Seq<char>) -> bool {
    (starts_with(d, "DocumentId("@) && d.len() > 0 && d.last() == ')') || first_pos(d, '(') < 0
        || last_pos(d, ')') < 0 || last_pos(d, ')') >= first_pos(d, '(') + 1
}

proof fn lemma_first_pos(s: Seq<char>, c: char)
    ensures
        -1 <= first_pos(s, c) < s.len(),
        first_pos(s, c) >= 0 ==> s[first_pos(s, c)] == c,
        forall|k: int| 0 <= k < s.len() && (first_pos(s, c) < 0 || k < first_pos(s, c)) ==> s[k] != c,
    decreases s.len(),
{
    if s.len() > 0 && s[0] != c {
        lemma_first_pos(s.drop_first(), c);
        assert forall|k: int| 0 <= k < s.len() && (first_pos(s, c) < 0 || k < first_pos(s, c)) implies s[k] != c by {
            if k > 0 {
                assert(s[k] == s.drop_first()[k - 1]);
            }
        }
    }
}

proof fn lemma_last_pos(s: Seq<char>, c: char)
    ensures
        -1 <= last_pos(s, c) < s.len(),
        last_pos(s, c) >= 0 ==> s[last_pos(s, c)] == c,
        forall|k: int| 0 <= k < s.len() && k > last_pos(s, c) ==> s[k] != c,
    decreases s.len(),
{
    if s.len() > 0 && s.last() != c {
        lemma_last_pos(s.drop_last(), c);
        assert forall|k: int| 0 <= k < s.len() && k > last_pos(s, c) implies s[k] != c by {
            if k < s.len() - 1 {
                assert(s[k] == s.drop_last()[k]);
            }
        }
    }
}

fn find_first(s: &Vec<char>, c: char) -> (r: Option<usize>)
    ensures
        match r {
            Some(i) => i == first_pos(s@, c),
            None => first_pos(s@, c) == -1,
        },
{
    let mut i: usize = 0;
    proof {
        lemma_first_pos(s@, c);
    }
    while i < s.len()
        invariant
            i <= s.len(),
            forall|k: int| 0 <= k < i ==> s@[k] != c,
        decreases s.len() - i,
    {
        if s[i] == c {
            proof {
                lemma_first_pos(s@, c);
            }
            return Some(i);
        }
        i = i + 1;
    }
    None
}

fn find_last(s: &Vec<char>, c: char) -> (r: Option<usize>)
    ensures
        match r {
            Some(i) => i == last_pos(s@, c),
            None => last_pos(s@, c) == -1,
        },
{
    let mut i: usize = s.len();
    proof {
        lemma_last_pos(s@, c);
    }
    while i > 0
        invariant
            i <= s.len(),
            forall|k: int| i <= k < s.len() ==> s@[k] != c,
        decreases i,
    {
        if s[i - 1] == c {
            proof {
                lemma_last_pos(s@, c);
            }
            return Some(i - 1);
        }
        i = i - 1;
    }
    None
}

fn chars_from(s: &Vec<char>, a: usize, b: usize) -> (r: Vec<char>)
    requires
        a <= b <= s.len(),
    ensures
        r@ == s@.subrange(a as int, b as int),
{
    let mut out: Vec<char> = Vec::new();
    let mut i: usize = a;
    while i < b
        invariant
            a <= i <= b <= s.len(),
            out@ == s@.subrange(a as int, i as int),
        decreases b - i,
    {
        out.push(s[i]);
        i = i + 1;
        assert(out@ =~= s@.subrange(a as int, i as int));
    }
    out
}

/// The number of a document from its displayed id.
pub fn document_number(display: &str) -> (r: String)
    requires
        brackets_in_order(display@),
    ensures
        r@ == document_number_spec(display@),
{
    proof {
        reveal_strlit("DocumentId(");
    }
    let d = chars_of(display);
    let prefix = chars_of("DocumentId(");
    let mut starts = d.len() >= prefix.len();
    if starts {
        let head = chars_from(&d, 0, prefix.len());
        starts = crate::text::chars_equal(head.as_slice(), prefix.as_slice());
    }
    assert(prefix@.len() == 11 && prefix@[10] == '(');
    if starts && d.len() > 0 && d[d.len() - 1] == ')' {
        assert(d@.subrange(0, 11)[10] == d@[10]);
        assert(d@[10] == '(');
        return string_of(chars_from(&d, 11, d.len() - 1).as_slice());
    }
    match find_first(&d, '(') {
        Some(start) => {
            proof {
                lemma_first_pos(d@, '(');
                lemma_last_pos(d@, ')');
            }
            match find_last(&d, ')') {
                Some(end) => {
                    let inner = chars_from(&d, start + 1, end);
                    return string_of(trim_chars(inner.as_slice()).as_slice());
                },
                None => {
                    let rest = chars_from(&d, start + 1, d.len());
                    assert(rest@ =~= d@.skip(start + 1));
                    return string_of(trim_chars(rest.as_slice()).as_slice());
                },
            }
        },
        None => {},
    }
    let mut i: usize = 0;
    let mut all = true;
    while i < d.len()
        invariant
            i <= d.len(),
            all == (forall|k: int| 0 <= k < i ==> is_numeric_char(d@[k])),
        decreases d.len() - i,
    {
        if !char_is_numeric(d[i]) {
            all = false;
        }
        i = i + 1;
    }
    if all {
        return owned(display);
    }
    let mut j: usize = 0;
    assert(d@.skip(0) =~= d@);
    while j < d.len() && !char_is_numeric(d[j])
        invariant
            j <= d.len(),
            first_number_run(d@) == first_number_run(d@.skip(j as int)),
        decreases d.len() - j,
    {
        assert(d@.skip(j as int)[0] == d@[j as int]);
        assert(d@.skip(j as int).drop_first() =~= d@.skip(j + 1));
        j = j + 1;
    }
    let start = j;
    assert(j < d.len() ==> d@.skip(j as int)[0] == d@[j as int]);
    assert(leading_numeric(d@.skip(start as int)) == first_number_run(d@.skip(start as int)) || j == d.len());
    while j < d.len() && char_is_numeric(d[j])
        invariant
            start <= j <= d.len(),
            leading_numeric(d@.skip(start as int)) == d@.subrange(start as int, j as int) + leading_numeric(d@.skip(j as int)),
        decreases d.len() - j,
    {
        assert(d@.skip(j as int)[0] == d@[j as int]);
        assert(d@.skip(j as int).drop_first() =~= d@.skip(j + 1));
        assert(d@.subrange(start as int, j + 1) =~= d@.subrange(start as int, j as int) + seq![d@[j as int]]);
        j = j + 1;
    }
    proof {
        if j < d.len() {
            assert(d@.skip(j as int)[0] == d@[j as int]);
        } else {
            assert(d@.skip(j as int) =~= Seq::<char>::empty());
        }
        if start == d.len() {
            assert(d@.skip(start as int) =~= Seq::<char>::empty());
        }
    }
    string_of(chars_from(&d, start, j).as_slice())
}

/// A text padded with spaces on the right to at least `width` characters.
pub open spec fn padded(s: Seq<char>, width: nat) -> Seq<char> {
    if s.len() >= width { s } else { s + Seq::new((width - s.len()) as nat, |i: int| ' ') }
}

fn pad_right(s: &mut Vec<char>, width: usize)
    ensures
        final(s)@ == padded(old(s)@, width as nat),
{
    let ghost orig = s@;
    while s.len() < width
        invariant
            orig.len() <= s@.len() || s@.len() <= width,
            s@.len() >= orig.len(),
            s@.subrange(0, orig.len() as int) == orig,
            forall|k: int| orig.len() <= k < s@.len() ==> s@[k] == ' ',
            s@.len() > orig.len() ==> s@.len() <= width,
        decreases width - s.len(),
    {
        s.push(' ');
    }
    proof {
        if orig.len() >= width {
            assert(s@ =~= orig);
        } else {
            assert(s@ =~= orig + Seq::new((width - orig.len()) as nat, |i: int| ' '));
        }
    }
}

/// The flags of a buffer: a plus when modified, a star when current,
/// padded to two characters.
pub open spec fn buffer_flags_spec(is_modified: bool, is_current: bool) -> Seq<char> {
    padded((if is_modified { seq!['+'] } else { Seq::empty() }) + (if is_current { seq!['*'] } else { Seq::empty() }), 2)
}

/// What the buffer picker knows of an open buffer.
#[derive(Debug, Clone, PartialEq)]
pub struct BufferMeta {
    /// The document's id as displayed.
    pub doc_id: String,
    pub path: Option<String>,
    pub is_modified: bool,
    pub is_current: bool,
    /// When the buffer last had the focus, in milliseconds on a clock that
    /// only moves forward.
    pub focused_at_ms: u64,
}

/// The path a buffer row shows: relative to the project when it lies
/// within it, "[scratch]" without a path.
pub open spec fn buffer_path_text(path: Option<Seq<char>>, project: Option<Seq<char>>) -> Seq<char> {
    match path {
        None => "[scratch]"@,
        Some(p) => match project {
            Some(dir) => match path_relative_to(p, dir) {
                Some(rel) => rel,
                None => p,
            },
            None => p,
        },
    }
}

/// The row of a buffer: its number padded to four characters, its flags,
/// and its path, separated by spaces.
pub open spec fn buffer_row_spec(m: BufferMeta, project: Option<Seq<char>>) -> Seq<char> {
    padded(document_number_spec(m.doc_id@), 4) + " "@ + buffer_flags_spec(m.is_modified, m.is_current) + " "@
        + buffer_path_text(match m.path {
        Some(p) => Some(p@),
        None => None,
    }, project)
}

/// The row of a buffer in the buffer picker.
pub fn buffer_row(m: &BufferMeta, project: Option<&str>) -> (r: String)
    requires
        brackets_in_order(m.doc_id@),
    ensures
        r@ == buffer_row_spec(*m, match project {
            Some(p) => Some(p@),
            None => None,
        }),
{
    proof {
        reveal_strlit(" ");
    }
    let number = document_number(m.doc_id.as_str());
    let mut out = chars_of(number.as_str());
    pad_right(&mut out, 4);
    out.push(' ');
    let mut flags: Vec<char> = Vec::new();
    if m.is_modified {
        flags.push('+');
    }
    if m.is_current {
        flags.push('*');
    }
    let ghost f0 = flags@;
    assert(f0 =~= (if m.is_modified { seq!['+'] } else { Seq::<char>::empty() }) + (if m.is_current { seq!['*'] } else { Seq::<char>::empty() }));
    pad_right(&mut flags, 2);
    append_chars(&mut out, flags.as_slice());
    out.push(' ');
    let path_text = match &m.path {
        None => owned("[scratch]"),
        Some(p) => match project {
            Some(dir) => match strip_prefix_of(p.as_str(), dir) {
                Some(rel) => rel,
                None => p.clone(),
            },
            None => p.clone(),
        },
    };
    let pc = chars_of(path_text.as_str());
    append_chars(&mut out, pc.as_slice());
    let r = string_of(out.as_slice());
    assert(r@ =~= buffer_row_spec(*m, match project {
        Some(p) => Some(p@),
        None => None,
    }));
    r
}

/// Whether the buffers are in order of focus, most recent first.
pub open spec fn most_recent_first(s: Seq<BufferMeta>) -> bool {
    forall|i: int, j: int| 0 <= i < j < s.len() ==> s[i].focused_at_ms >= s[j].focused_at_ms
}

/// Whether `p` places each entry of `out` in `input`: the entry at `k` is
/// the entry of `input` at position `p[k]`, and no position is used twice.
pub open spec fn placed_by(out: Seq<BufferMeta>, input: Seq<BufferMeta>, p: Seq<int>) -> bool {
    &&& p.len() == out.len()
    &&& forall|k: int| 0 <= k < out.len() ==> 0 <= #[trigger] p[k] < input.len() && out[k] == input[p[k]]
    &&& forall|i: int, j: int| 0 <= i < j < out.len() ==> #[trigger] p[i] != #[trigger] p[j]
}

/// Whether entries focused at the same time keep the order of their
/// positions `p` in the input.
pub open spec fn ties_keep_order(out: Seq<BufferMeta>, p: Seq<int>) -> bool {
    forall|i: int, j: int|
        #![trigger out[i], out[j]]
        0 <= i < j < out.len() && out[i].focused_at_ms == out[j].focused_at_ms ==> p[i] < p[j]
}

/// Whether `out` holds the entries of `input`, each once, with entries
/// focused at the same time in the order they had in `input`.
pub open spec fn stably_placed(out: Seq<BufferMeta>, input: Seq<BufferMeta>) -> bool {
    exists|p: Seq<int>| #[trigger] placed_by(out, input, p) && ties_keep_order(out, p)
}

/// The buffers ordered most recently focused first, each with its row.
/// The order is stable: buffers focused at the same time stay in the order
/// they were given in.
pub fn buffer_picker_rows(metas: Vec<BufferMeta>, project: Option<&str>) -> (r: Vec<(String, BufferMeta)>)
    requires
        forall|k: int| 0 <= k < metas@.len() ==> brackets_in_order(#[trigger] metas@[k].doc_id@),
    ensures
        most_recent_first(r@.map_values(|e: (String, BufferMeta)| e.1)),
        r@.len() == metas@.len(),
        stably_placed(r@.map_values(|e: (String, BufferMeta)| e.1), metas@),
        r@.map_values(|e: (String, BufferMeta)| e.1).to_multiset() == metas@.to_multiset(),
        forall|k: int| 0 <= k < r@.len() ==> (#[trigger] r@[k]).0@ == buffer_row_spec(r@[k].1, match project {
            Some(p) => Some(p@),
            None => None,
        }),
{
    let mut sorted: Vec<BufferMeta> = Vec::new();
    let mut rest = metas;
    let ghost all = rest@;
    let ghost mut idx: Seq<int> = Seq::empty();
    assert(rest@ =~= all.skip(0));
    while rest.len() > 0
        invariant
            most_recent_first(sorted@),
            sorted@.to_multiset().add(rest@.to_multiset()) == all.to_multiset(),
            sorted@.len() + rest@.len() == all.len(),
            rest@ == all.skip(sorted@.len() as int),
            placed_by(sorted@, all, idx),
            forall|k: int| 0 <= k < sorted@.len() ==> #[trigger] idx[k] < sorted@.len(),
            ties_keep_order(sorted@, idx),
            forall|k: int| 0 <= k < sorted@.len() ==> brackets_in_order(#[trigger] sorted@[k].doc_id@),
            forall|k: int| 0 <= k < rest@.len() ==> brackets_in_order(#[trigger] rest@[k].doc_id@),
        decreases rest.len(),
    {
        let ghost before = rest@;
        let ghost c = sorted@.len() as int;
        let m = rest.remove(0);
        assert(before[0] == m);
        assert(before =~= seq![m] + rest@);
        assert(all[c] == m) by {
            assert(before[0] == all.skip(c)[0]);
        }
        assert(rest@ =~= all.skip(c + 1));
        proof {
            vstd::seq_lib::lemma_multiset_commutative(seq![m], rest@);
            assert(seq![m].to_multiset() =~= Multiset::<BufferMeta>::empty().insert(m)) by {
                assert(seq![m] =~= Seq::<BufferMeta>::empty().push(m));
            }
            assert forall|k: int| 0 <= k < rest@.len() implies brackets_in_order(#[trigger] rest@[k].doc_id@) by {
                assert(rest@[k] == before[k + 1]);
            }
        }
        let mut pos: usize = 0;
        while pos < sorted.len() && sorted[pos].focused_at_ms >= m.focused_at_ms
            invariant
                pos <= sorted@.len(),
                forall|k: int| 0 <= k < pos ==> sorted@[k].focused_at_ms >= m.focused_at_ms,
            decreases sorted.len() - pos,
        {
            pos = pos + 1;
        }
        let ghost old_sorted = sorted@;
        let ghost old_idx = idx;
        sorted.insert(pos, m);
        proof {
            idx = old_idx.insert(pos as int, c);
            old_idx.insert_ensures(pos as int, c);
        }
        assert forall|i: int, j: int| 0 <= i < j < sorted@.len() implies sorted@[i].focused_at_ms >= sorted@[j].focused_at_ms by {
            if j < pos {
                assert(sorted@[i] == old_sorted[i] && sorted@[j] == old_sorted[j]);
            } else if j == pos {
                assert(sorted@[i] == old_sorted[i]);
            } else if i < pos {
                assert(sorted@[i] == old_sorted[i] && sorted@[j] == old_sorted[j - 1]);
            } else if i == pos {
                assert(sorted@[j] == old_sorted[j - 1]);
                assert(old_sorted[pos as int].focused_at_ms < m.focused_at_ms);
            } else {
                assert(sorted@[i] == old_sorted[i - 1] && sorted@[j] == old_sorted[j - 1]);
            }
        }
        assert forall|k: int| 0 <= k < sorted@.len() implies 0 <= #[trigger] idx[k] < all.len() && sorted@[k] == all[idx[k]]
            && idx[k] < sorted@.len() by {
            if k < pos {
                assert(sorted@[k] == old_sorted[k] && idx[k] == old_idx[k]);
            } else if k > pos {
                assert(sorted@[k] == old_sorted[k - 1] && idx[k] == old_idx[k - 1]);
            }
        }
        assert forall|i: int, j: int| 0 <= i < j < sorted@.len() implies #[trigger] idx[i] != #[trigger] idx[j] by {
            if j < pos {
                assert(idx[i] == old_idx[i] && idx[j] == old_idx[j]);
            } else if j == pos {
                assert(idx[i] == old_idx[i]);
            } else if i < pos {
                assert(idx[i] == old_idx[i] && idx[j] == old_idx[j - 1]);
            } else if i == pos {
                assert(idx[j] == old_idx[j - 1]);
            } else {
                assert(idx[i] == old_idx[i - 1] && idx[j] == old_idx[j - 1]);
            }
        }
        assert forall|i: int, j: int|
            0 <= i < j < sorted@.len() && sorted@[i].focused_at_ms == sorted@[j].focused_at_ms implies idx[i] < idx[j] by {
            if j < pos {
                assert(sorted@[i] == old_sorted[i] && sorted@[j] == old_sorted[j]);
                assert(idx[i] == old_idx[i] && idx[j] == old_idx[j]);
            } else if j == pos {
                assert(idx[i] == old_idx[i]);
            } else if i < pos {
                assert(sorted@[i] == old_sorted[i] && sorted@[j] == old_sorted[j - 1]);
                assert(idx[i] == old_idx[i] && idx[j] == old_idx[j - 1]);
            } else if i == pos {
                assert(sorted@[j] == old_sorted[j - 1]);
                assert(old_sorted[pos as int].focused_at_ms < m.focused_at_ms);
                assert(old_sorted[pos as int].focused_at_ms >= old_sorted[j - 1].focused_at_ms);
            } else {
                assert(sorted@[i] == old_sorted[i - 1] && sorted@[j] == old_sorted[j - 1]);
                assert(idx[i] == old_idx[i - 1] && idx[j] == old_idx[j - 1]);
            }
        }
        assert forall|k: int| 0 <= k < sorted@.len() implies brackets_in_order(#[trigger] sorted@[k].doc_id@) by {
            if k < pos {
                assert(sorted@[k] == old_sorted[k]);
            } else if k > pos {
                assert(sorted@[k] == old_sorted[k - 1]);
            }
        }
    }
    let mut out: Vec<(String, BufferMeta)> = Vec::new();
    let mut rest2 = sorted;
    let ghost order = rest2@;
    while rest2.len() > 0
        invariant
            out@.map_values(|e: (String, BufferMeta)| e.1) + rest2@ == order,
            forall|k: int| 0 <= k < rest2@.len() ==> brackets_in_order(#[trigger] rest2@[k].doc_id@),
            forall|k: int| 0 <= k < out@.len() ==> (#[trigger] out@[k]).0@ == buffer_row_spec(out@[k].1, match project {
                Some(p) => Some(p@),
                None => None,
            }),
        decreases rest2.len(),
    {
        let ghost before = rest2@;
        let m = rest2.remove(0);
        assert(before[0] == m);
        assert forall|k: int| 0 <= k < rest2@.len() implies brackets_in_order(#[trigger] rest2@[k].doc_id@) by {
            assert(rest2@[k] == before[k + 1]);
        }
        let row = buffer_row(&m, project);
        let ghost ob = out@;
        out.push((row, m));
        assert(out@.map_values(|e: (String, BufferMeta)| e.1) =~= ob.map_values(|e: (String, BufferMeta)| e.1).push(m));
        assert(out@.map_values(|e: (String, BufferMeta)| e.1) + rest2@ =~= ob.map_values(|e: (String, BufferMeta)| e.1) + before);
    }
    assert(out@.map_values(|e: (String, BufferMeta)| e.1) =~= order);
    assert(placed_by(out@.map_values(|e: (String, BufferMeta)| e.1), all, idx));
    out
}

} // verus!
