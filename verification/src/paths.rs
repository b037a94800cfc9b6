//! Paths compared the way the file tree compares them: by their
//! components, the pieces between slashes, so that a directory's entries
//! sort right after it and `a/b` and `a//b/` are the same path.
use vstd::prelude::*;
use crate::simple_file_tree::{chars_le, lemma_chars_le_total, lemma_chars_le_transitive};
use crate::text::chars_of;

verus! {

/// The pieces of a text between slashes, the last one possibly empty.
pub open spec fn slash_pieces(s: Seq<char>) -> Seq<Seq<char>>
    decreases s.len(),
{
    if s.len() == 0 {
        seq![Seq::empty()]
    } else {
        let p = slash_pieces(s.drop_last());
        if s.last() == '/' {
            p.push(Seq::empty())
        } else {
            p.update(p.len() - 1, p.last().push(s.last()))
        }
    }
}

/// The non-empty pieces, in order.
pub open spec fn non_empty(p: Seq<Seq<char>>) -> Seq<Seq<char>>
    decreases p.len(),
{
    if p.len() == 0 {
        p
    } else if p.last().len() == 0 {
        non_empty(p.drop_last())
    } else {
        non_empty(p.drop_last()).push(p.last())
    }
}

/// The components of a path: the root (an empty text) when it starts with
/// a slash, then the names between slashes, repeated and trailing slashes
/// ignored.
pub open spec fn path_components(s: Seq<char>) -> Seq<Seq<char>> {
    let names = non_empty(slash_pieces(s));
    if s.len() > 0 && s[0] == '/' {
        seq![Seq::empty()] + names
    } else {
        names
    }
}

/// Whether component sequence `a` comes before or equals `b`: the first
/// differing component decides, and a start of another comes first.
pub open spec fn components_le(a: Seq<Seq<char>>, b: Seq<Seq<char>>) -> bool
    decreases a.len(),
{
    if a.len() == 0 {
        true
    } else if b.len() == 0 {
        false
    } else if a[0] == b[0] {
        components_le(a.drop_first(), b.drop_first())
    } else {
        chars_le(a[0], b[0])
    }
}

/// Whether path `a` sorts before or equals path `b`.
pub open spec fn path_le(a: Seq<char>, b: Seq<char>) -> bool {
    components_le(path_components(a), path_components(b))
}

/// Whether two paths are the same: they have the same components.
pub open spec fn same_path(a: Seq<char>, b: Seq<char>) -> bool {
    path_components(a) == path_components(b)
}

/// Whether path `a` lies within `base` (or is it): the components of
/// `base` start those of `a`.
pub open spec fn path_within(a: Seq<char>, base: Seq<char>) -> bool {
    let ca = path_components(a);
    let cb = path_components(base);
    cb.len() <= ca.len() && ca.subrange(0, cb.len() as int) == cb
}

/// Two texts that each come before the other are equal.
pub proof fn lemma_chars_le_antisymmetric(a: Seq<char>, b: Seq<char>)
    requires
        chars_le(a, b),
        chars_le(b, a),
    ensures
        a == b,
    decreases a.len(),
{
    if a.len() > 0 && b.len() > 0 {
        vstd::utf8::char_u32_cast(a[0], a[0] as u32);
        vstd::utf8::char_u32_cast(b[0], b[0] as u32);
        lemma_chars_le_antisymmetric(a.drop_first(), b.drop_first());
        assert(a =~= seq![a[0]] + a.drop_first());
        assert(b =~= seq![b[0]] + b.drop_first());
    } else if a.len() == 0 && b.len() == 0 {
        assert(a =~= b);
    }
}

/// Any two component sequences are ordered one way or the other.
pub proof fn lemma_components_le_total(a: Seq<Seq<char>>, b: Seq<Seq<char>>)
    ensures
        components_le(a, b) || components_le(b, a),
    decreases a.len(),
{
    if a.len() > 0 && b.len() > 0 {
        if a[0] == b[0] {
            lemma_components_le_total(a.drop_first(), b.drop_first());
        } else {
            lemma_chars_le_total(a[0], b[0]);
        }
    }
}

/// The order of component sequences is transitive.
pub proof fn lemma_components_le_transitive(a: Seq<Seq<char>>, b: Seq<Seq<char>>, c: Seq<Seq<char>>)
    requires
        components_le(a, b),
        components_le(b, c),
    ensures
        components_le(a, c),
    decreases a.len(),
{
    if a.len() > 0 && b.len() > 0 && c.len() > 0 {
        if a[0] == b[0] && b[0] == c[0] {
            lemma_components_le_transitive(a.drop_first(), b.drop_first(), c.drop_first());
        } else if a[0] == b[0] {
        } else if b[0] == c[0] {
        } else {
            lemma_chars_le_transitive(a[0], b[0], c[0]);
            if a[0] == c[0] {
                lemma_chars_le_antisymmetric(a[0], b[0]);
            }
        }
    }
}

/// Paths are ordered one way or the other, and the order is transitive.
pub proof fn lemma_path_le_total_transitive(a: Seq<char>, b: Seq<char>, c: Seq<char>)
    ensures
        path_le(a, b) || path_le(b, a),
        path_le(a, b) && path_le(b, c) ==> path_le(a, c),
{
    lemma_components_le_total(path_components(a), path_components(b));
    if path_le(a, b) && path_le(b, c) {
        lemma_components_le_transitive(path_components(a), path_components(b), path_components(c));
    }
}

proof fn lemma_slash_pieces_len(s: Seq<char>)
    ensures
        slash_pieces(s).len() >= 1,
    decreases s.len(),
{
    if s.len() > 0 {
        lemma_slash_pieces_len(s.drop_last());
    }
}

/// The components of a path.
pub fn components_of(path: &str) -> (r: Vec<Vec<char>>)
    ensures
        r@.map_values(|c: Vec<char>| c@) == path_components(path@),
{
    let s = chars_of(path);
    let mut names: Vec<Vec<char>> = Vec::new();
    let mut cur: Vec<char> = Vec::new();
    let mut i: usize = 0;
    assert(s@.subrange(0, 0) =~= Seq::<char>::empty());
    while i < s.len()
        invariant
            i <= s.len(),
            slash_pieces(s@.subrange(0, i as int)).len() >= 1,
            names@.map_values(|c: Vec<char>| c@) == non_empty(slash_pieces(s@.subrange(0, i as int)).drop_last()),
            cur@ == slash_pieces(s@.subrange(0, i as int)).last(),
        decreases s.len() - i,
    {
        let ghost pre = s@.subrange(0, i as int);
        let ghost next = s@.subrange(0, i + 1);
        assert(next.drop_last() =~= pre);
        assert(next.last() == s@[i as int]);
        proof {
            lemma_slash_pieces_len(pre);
        }
        let c = s[i];
        if c == '/' {
            let piece = cur;
            cur = Vec::new();
            let ghost old_names = names@;
            let ghost p = slash_pieces(pre);
            assert(slash_pieces(next) == p.push(Seq::<char>::empty()));
            assert(slash_pieces(next).drop_last() =~= p);
            assert(p.drop_last().push(p.last()) =~= p);
            if piece.len() > 0 {
                names.push(piece);
                assert(names@.map_values(|c: Vec<char>| c@) =~= old_names.map_values(|c: Vec<char>| c@).push(p.last()));
            }
        } else {
            cur.push(c);
            proof {
                let p = slash_pieces(pre);
                assert(slash_pieces(next).drop_last() =~= p.drop_last());
            }
        }
        i = i + 1;
    }
    assert(s@.subrange(0, s.len() as int) =~= s@);
    proof {
        lemma_slash_pieces_len(s@);
        let p = slash_pieces(s@);
        assert(p.drop_last().push(p.last()) =~= p);
    }
    let ghost before = names@;
    if cur.len() > 0 {
        names.push(cur);
        assert(names@.map_values(|c: Vec<char>| c@) =~= before.map_values(|c: Vec<char>| c@).push(slash_pieces(s@).last()));
    }
    if s.len() > 0 && s[0] == '/' {
        let ghost named = names@.map_values(|c: Vec<char>| c@);
        names.insert(0, Vec::new());
        assert(names@.map_values(|c: Vec<char>| c@) =~= seq![Seq::<char>::empty()] + named);
    }
    names
}

fn texts_equal(a: &Vec<char>, b: &Vec<char>) -> (r: bool)
    ensures
        r == (a@ == b@),
{
    crate::text::chars_equal(a.as_slice(), b.as_slice())
}

fn chars_le_exec(a: &Vec<char>, b: &Vec<char>) -> (r: bool)
    ensures
        r == chars_le(a@, b@),
{
    let mut i: usize = 0;
    assert(a@.skip(0) =~= a@);
    assert(b@.skip(0) =~= b@);
    while i < a.len() && i < b.len()
        invariant
            i <= a.len(),
            i <= b.len(),
            chars_le(a@, b@) == chars_le(a@.skip(i as int), b@.skip(i as int)),
        decreases a.len() - i,
    {
        assert(a@.skip(i as int)[0] == a@[i as int]);
        assert(b@.skip(i as int)[0] == b@[i as int]);
        let p = a[i] as u32;
        let q = b[i] as u32;
        if p < q {
            return true;
        }
        if p > q {
            return false;
        }
        assert(a@.skip(i as int).drop_first() =~= a@.skip(i + 1));
        assert(b@.skip(i as int).drop_first() =~= b@.skip(i + 1));
        i = i + 1;
    }
    i == a.len()
}

/// Whether path `a` sorts before or equals path `b`.
pub fn path_le_exec(a: &str, b: &str) -> (r: bool)
    ensures
        r == path_le(a@, b@),
{
    let ca = components_of(a);
    let cb = components_of(b);
    let ghost va = ca@.map_values(|c: Vec<char>| c@);
    let ghost vb = cb@.map_values(|c: Vec<char>| c@);
    let mut i: usize = 0;
    assert(va.skip(0) =~= va);
    assert(vb.skip(0) =~= vb);
    while i < ca.len() && i < cb.len()
        invariant
            i <= ca.len(),
            i <= cb.len(),
            va == ca@.map_values(|c: Vec<char>| c@),
            vb == cb@.map_values(|c: Vec<char>| c@),
            va == path_components(a@),
            vb == path_components(b@),
            components_le(va, vb) == components_le(va.skip(i as int), vb.skip(i as int)),
        decreases ca.len() - i,
    {
        assert(va.skip(i as int)[0] == ca@[i as int]@);
        assert(vb.skip(i as int)[0] == cb@[i as int]@);
        if !texts_equal(&ca[i], &cb[i]) {
            return chars_le_exec(&ca[i], &cb[i]);
        }
        assert(va.skip(i as int).drop_first() =~= va.skip(i + 1));
        assert(vb.skip(i as int).drop_first() =~= vb.skip(i + 1));
        i = i + 1;
    }
    i == ca.len()
}

/// Whether two paths have the same components.
pub fn same_path_exec(a: &str, b: &str) -> (r: bool)
    ensures
        r == same_path(a@, b@),
{
    let ca = components_of(a);
    let cb = components_of(b);
    let ghost va = ca@.map_values(|c: Vec<char>| c@);
    let ghost vb = cb@.map_values(|c: Vec<char>| c@);
    assert(va.len() == ca@.len() && vb.len() == cb@.len());
    if ca.len() != cb.len() {
        return false;
    }
    let mut i: usize = 0;
    while i < ca.len()
        invariant
            i <= ca.len(),
            ca.len() == cb.len(),
            va == ca@.map_values(|c: Vec<char>| c@),
            vb == cb@.map_values(|c: Vec<char>| c@),
            va == path_components(a@),
            vb == path_components(b@),
            forall|k: int| 0 <= k < i ==> va[k] == vb[k],
        decreases ca.len() - i,
    {
        if !texts_equal(&ca[i], &cb[i]) {
            assert(va[i as int] != vb[i as int]);
            return false;
        }
        i = i + 1;
    }
    assert(va =~= vb);
    true
}

/// Whether path `a` lies within `base` (or is it).
pub fn path_within_exec(a: &str, base: &str) -> (r: bool)
    ensures
        r == path_within(a@, base@),
{
    let ca = components_of(a);
    let cb = components_of(base);
    let ghost va = ca@.map_values(|c: Vec<char>| c@);
    let ghost vb = cb@.map_values(|c: Vec<char>| c@);
    assert(va.len() == ca@.len() && vb.len() == cb@.len());
    if cb.len() > ca.len() {
        return false;
    }
    let mut i: usize = 0;
    while i < cb.len()
        invariant
            i <= cb.len() <= ca.len(),
            va == ca@.map_values(|c: Vec<char>| c@),
            vb == cb@.map_values(|c: Vec<char>| c@),
            va == path_components(a@),
            vb == path_components(base@),
            forall|k: int| 0 <= k < i ==> va[k] == vb[k],
        decreases cb.len() - i,
    {
        if !texts_equal(&ca[i], &cb[i]) {
            assert(va.subrange(0, vb.len() as int)[i as int] != vb[i as int]);
            return false;
        }
        i = i + 1;
    }
    assert(va.subrange(0, vb.len() as int) =~= vb);
    true
}

} // verus!
