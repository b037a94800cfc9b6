//! Reading the local path out of a `file:` URL that the operating system
//! hands over when files are dropped or opened.
use vstd::prelude::*;
use crate::text::{chars_of, string_of};

verus! {

/// `s` with every occurrence of `pat`, from left to right and without
/// overlaps, replaced by `rep` (what `str::replace` gives).
pub open spec fn replace_all(s: Seq<char>, pat: Seq<char>, rep: Seq<char>) -> Seq<char>
    decreases s.len(),
{
    if pat.len() == 0 || s.len() < pat.len() {
        s
    } else if s.subrange(0, pat.len() as int) == pat {
        rep + replace_all(s.subrange(pat.len() as int, s.len() as int), pat, rep)
    } else {
        seq![s[0]] + replace_all(s.drop_first(), pat, rep)
    }
}

fn matches_at(s: &[char], i: usize, pat: &[char]) -> (r: bool)
    requires
        i <= s.len(),
    ensures
        r == (i + pat.len() <= s.len() && s@.subrange(i as int, i + pat.len()) == pat@),
{
    if pat.len() > s.len() - i {
        return false;
    }
    let mut k: usize = 0;
    while k < pat.len()
        invariant
            k <= pat.len(),
            i + pat.len() <= s.len(),
            forall|m: int| 0 <= m < k ==> s@[i + m] == pat@[m],
        decreases pat.len() - k,
    {
        if s[i + k] != pat[k] {
            assert(s@.subrange(i as int, i + pat.len())[k as int] != pat@[k as int]);
            return false;
        }
        k = k + 1;
    }
    assert(s@.subrange(i as int, i + pat.len()) =~= pat@);
    true
}

/// `s` with every occurrence of `pat`, left to right, replaced by `rep`.
pub fn replace_text(s: &str, pat: &str, rep: &str) -> (r: String)
    requires
        pat@.len() > 0,
    ensures
        r@ == replace_all(s@, pat@, rep@),
{
    let cs = chars_of(s);
    let ps = chars_of(pat);
    let rs = chars_of(rep);
    let mut out: Vec<char> = Vec::new();
    let mut i: usize = 0;
    assert(cs@.subrange(0, cs@.len() as int) =~= cs@);
    while i < cs.len()
        invariant
            i <= cs.len(),
            ps@ == pat@,
            rs@ == rep@,
            ps@.len() > 0,
            replace_all(cs@, ps@, rs@) == out@ + replace_all(
                cs@.subrange(i as int, cs@.len() as int),
                ps@,
                rs@,
            ),
        decreases cs.len() - i,
    {
        let ghost rest = cs@.subrange(i as int, cs@.len() as int);
        if matches_at(cs.as_slice(), i, ps.as_slice()) {
            assert(rest.subrange(0, ps@.len() as int) =~= cs@.subrange(i as int, i + ps@.len()));
            assert(rest.subrange(ps@.len() as int, rest.len() as int) =~= cs@.subrange(
                i + ps@.len(),
                cs@.len() as int,
            ));
            let mut k: usize = 0;
            let ghost start = out@;
            while k < rs.len()
                invariant
                    k <= rs.len(),
                    out@ == start + rs@.subrange(0, k as int),
                decreases rs.len() - k,
            {
                out.push(rs[k]);
                k = k + 1;
                assert(out@ =~= start + rs@.subrange(0, k as int));
            }
            assert(rs@.subrange(0, rs@.len() as int) =~= rs@);
            assert(out@ =~= start + rs@);
            i = i + ps.len();
        } else {
            proof {
                if rest.len() >= ps@.len() {
                    assert(rest.subrange(0, ps@.len() as int) =~= cs@.subrange(i as int, i + ps@.len()));
                }
            }
            assert(rest.drop_first() =~= cs@.subrange(i + 1, cs@.len() as int));
            let ghost start = out@;
            out.push(cs[i]);
            assert(out@ =~= start + seq![cs@[i as int]]);
            i = i + 1;
        }
    }
    assert(cs@.subrange(cs@.len() as int, cs@.len() as int) =~= Seq::<char>::empty());
    assert(out@ + Seq::<char>::empty() =~= out@);
    string_of(out.as_slice())
}

/// The escapes that a path after `file://` may hold, decoded in this order.
pub open spec fn decode_file_path(p: Seq<char>) -> Seq<char> {
    let s = replace_all(p, "%20"@, " "@);
    let s = replace_all(s, "%2F"@, "/"@);
    let s = replace_all(s, "%3A"@, ":"@);
    let s = replace_all(s, "%40"@, "@"@);
    let s = replace_all(s, "%21"@, "!"@);
    let s = replace_all(s, "%24"@, "$"@);
    let s = replace_all(s, "%26"@, "&"@);
    let s = replace_all(s, "%27"@, "'"@);
    let s = replace_all(s, "%28"@, "("@);
    let s = replace_all(s, "%29"@, ")"@);
    let s = replace_all(s, "%2A"@, "*"@);
    let s = replace_all(s, "%2B"@, "+"@);
    let s = replace_all(s, "%2C"@, ","@);
    let s = replace_all(s, "%3B"@, ";"@);
    replace_all(s, "%3D"@, "="@)
}

/// The escapes that a path after a bare `file:` may hold, decoded in this order.
pub open spec fn decode_short_file_path(p: Seq<char>) -> Seq<char> {
    let s = replace_all(p, "%20"@, " "@);
    let s = replace_all(s, "%2F"@, "/"@);
    let s = replace_all(s, "%3A"@, ":"@);
    replace_all(s, "%40"@, "@"@)
}

/// The path of a `file:` URL: after `file://` with fifteen escapes decoded,
/// after a bare `file:` with four; nothing for other URLs.
pub open spec fn parse_file_url_spec(url: Seq<char>) -> Option<Seq<char>> {
    if url.len() >= 7 && url.subrange(0, 7) == "file://"@ {
        Some(decode_file_path(url.subrange(7, url.len() as int)))
    } else if url.len() >= 5 && url.subrange(0, 5) == "file:"@ {
        Some(decode_short_file_path(url.subrange(5, url.len() as int)))
    } else {
        None
    }
}

proof fn lemma_escape_lengths()
    ensures
        "%20"@.len() == 3,
        "%2F"@.len() == 3,
        "%3A"@.len() == 3,
        "%40"@.len() == 3,
        "%21"@.len() == 3,
        "%24"@.len() == 3,
        "%26"@.len() == 3,
        "%27"@.len() == 3,
        "%28"@.len() == 3,
        "%29"@.len() == 3,
        "%2A"@.len() == 3,
        "%2B"@.len() == 3,
        "%2C"@.len() == 3,
        "%3B"@.len() == 3,
        "%3D"@.len() == 3,
        "%20"@[0] == '%',
        "%2F"@[0] == '%',
        "%3A"@[0] == '%',
        "%40"@[0] == '%',
        "%21"@[0] == '%',
        "%24"@[0] == '%',
        "%26"@[0] == '%',
        "%27"@[0] == '%',
        "%28"@[0] == '%',
        "%29"@[0] == '%',
        "%2A"@[0] == '%',
        "%2B"@[0] == '%',
        "%2C"@[0] == '%',
        "%3B"@[0] == '%',
        "%3D"@[0] == '%',
{
    reveal_strlit("%20");
    reveal_strlit("%2F");
    reveal_strlit("%3A");
    reveal_strlit("%40");
    reveal_strlit("%21");
    reveal_strlit("%24");
    reveal_strlit("%26");
    reveal_strlit("%27");
    reveal_strlit("%28");
    reveal_strlit("%29");
    reveal_strlit("%2A");
    reveal_strlit("%2B");
    reveal_strlit("%2C");
    reveal_strlit("%3B");
    reveal_strlit("%3D");
}

fn strip_prefix_chars(s: &[char], prefix: &str) -> (r: Option<Vec<char>>)
    ensures
        match r {
            Some(rest) => s@.len() >= prefix@.len() && s@.subrange(0, prefix@.len() as int)
                == prefix@ && rest@ == s@.subrange(prefix@.len() as int, s@.len() as int),
            None => !(s@.len() >= prefix@.len() && s@.subrange(0, prefix@.len() as int)
                == prefix@),
        },
{
    let p = chars_of(prefix);
    if !matches_at(s, 0, p.as_slice()) {
        return None;
    }
    let mut rest: Vec<char> = Vec::new();
    let mut i: usize = p.len();
    while i < s.len()
        invariant
            p.len() <= i <= s.len(),
            rest@ == s@.subrange(p.len() as int, i as int),
        decreases s.len() - i,
    {
        rest.push(s[i]);
        i = i + 1;
        assert(rest@ =~= s@.subrange(p.len() as int, i as int));
    }
    Some(rest)
}

/// The local path of a `file:` URL with its escapes decoded, or nothing
/// when the text is not such a URL.
pub fn parse_file_url(url: &str) -> (r: Option<String>)
    ensures
        match r {
            Some(p) => parse_file_url_spec(url@) == Some(p@),
            None => parse_file_url_spec(url@) is None,
        },
{
    proof {
        lemma_escape_lengths();
        reveal_strlit("file://");
        reveal_strlit("file:");
    }
    let chars = chars_of(url);
    match strip_prefix_chars(chars.as_slice(), "file://") {
        Some(rest) => {
            let path = string_of(rest.as_slice());
            let s = replace_text(path.as_str(), "%20", " ");
            let s = replace_text(s.as_str(), "%2F", "/");
            let s = replace_text(s.as_str(), "%3A", ":");
            let s = replace_text(s.as_str(), "%40", "@");
            let s = replace_text(s.as_str(), "%21", "!");
            let s = replace_text(s.as_str(), "%24", "$");
            let s = replace_text(s.as_str(), "%26", "&");
            let s = replace_text(s.as_str(), "%27", "'");
            let s = replace_text(s.as_str(), "%28", "(");
            let s = replace_text(s.as_str(), "%29", ")");
            let s = replace_text(s.as_str(), "%2A", "*");
            let s = replace_text(s.as_str(), "%2B", "+");
            let s = replace_text(s.as_str(), "%2C", ",");
            let s = replace_text(s.as_str(), "%3B", ";");
            let s = replace_text(s.as_str(), "%3D", "=");
            return Some(s);
        },
        None => {},
    }
    match strip_prefix_chars(chars.as_slice(), "file:") {
        Some(rest) => {
            let path = string_of(rest.as_slice());
            let s = replace_text(path.as_str(), "%20", " ");
            let s = replace_text(s.as_str(), "%2F", "/");
            let s = replace_text(s.as_str(), "%3A", ":");
            let s = replace_text(s.as_str(), "%40", "@");
            Some(s)
        },
        None => None,
    }
}

proof fn lemma_replace_all_without_escape(s: Seq<char>, pat: Seq<char>, rep: Seq<char>)
    requires
        pat.len() > 0,
        pat[0] == '%',
        !s.contains('%'),
    ensures
        replace_all(s, pat, rep) == s,
    decreases s.len(),
{
    if s.len() >= pat.len() {
        assert(s.subrange(0, pat.len() as int)[0] == s[0]);
        assert(s[0] != '%') by {
            if s[0] == '%' {
                assert(s.contains('%'));
            }
        }
        let t = s.drop_first();
        assert forall|x: char| t.contains(x) implies s.contains(x) by {
            let k = choose|k: int| 0 <= k < t.len() && t[k] == x;
            assert(s[k + 1] == x);
        }
        lemma_replace_all_without_escape(t, pat, rep);
        assert(seq![s[0]] + t =~= s);
    }
}

/// A path without `%` comes out of a `file://` or `file:` URL unchanged.
pub proof fn lemma_plain_path_unchanged(path: Seq<char>)
    requires
        !path.contains('%'),
    ensures
        decode_file_path(path) == path,
        decode_short_file_path(path) == path,
{
    lemma_escape_lengths();
    lemma_replace_all_without_escape(path, "%20"@, " "@);
    lemma_replace_all_without_escape(path, "%2F"@, "/"@);
    lemma_replace_all_without_escape(path, "%3A"@, ":"@);
    lemma_replace_all_without_escape(path, "%40"@, "@"@);
    lemma_replace_all_without_escape(path, "%21"@, "!"@);
    lemma_replace_all_without_escape(path, "%24"@, "$"@);
    lemma_replace_all_without_escape(path, "%26"@, "&"@);
    lemma_replace_all_without_escape(path, "%27"@, "'"@);
    lemma_replace_all_without_escape(path, "%28"@, "("@);
    lemma_replace_all_without_escape(path, "%29"@, ")"@);
    lemma_replace_all_without_escape(path, "%2A"@, "*"@);
    lemma_replace_all_without_escape(path, "%2B"@, "+"@);
    lemma_replace_all_without_escape(path, "%2C"@, ","@);
    lemma_replace_all_without_escape(path, "%3B"@, ";"@);
    lemma_replace_all_without_escape(path, "%3D"@, "="@);
}

/// The position of a character in the list of characters that a
/// `file://` path may hold escaped, in the order the escapes are decoded;
/// 15 for any other character.
pub open spec fn escape_rank(c: char) -> int {
    if c == ' ' {
        0
    } else if c == '/' {
        1
    } else if c == ':' {
        2
    } else if c == '@' {
        3
    } else if c == '!' {
        4
    } else if c == '$' {
        5
    } else if c == '&' {
        6
    } else if c == '\'' {
        7
    } else if c == '(' {
        8
    } else if c == ')' {
        9
    } else if c == '*' {
        10
    } else if c == '+' {
        11
    } else if c == ',' {
        12
    } else if c == ';' {
        13
    } else if c == '=' {
        14
    } else {
        15
    }
}

/// The escape of the character at a position of that list.
pub open spec fn rank_code(k: int) -> Seq<char> {
    if k == 0 {
        "%20"@
    } else if k == 1 {
        "%2F"@
    } else if k == 2 {
        "%3A"@
    } else if k == 3 {
        "%40"@
    } else if k == 4 {
        "%21"@
    } else if k == 5 {
        "%24"@
    } else if k == 6 {
        "%26"@
    } else if k == 7 {
        "%27"@
    } else if k == 8 {
        "%28"@
    } else if k == 9 {
        "%29"@
    } else if k == 10 {
        "%2A"@
    } else if k == 11 {
        "%2B"@
    } else if k == 12 {
        "%2C"@
    } else if k == 13 {
        "%3B"@
    } else {
        "%3D"@
    }
}

/// The character at a position of that list, as a text.
pub open spec fn rank_text(k: int) -> Seq<char> {
    if k == 0 {
        " "@
    } else if k == 1 {
        "/"@
    } else if k == 2 {
        ":"@
    } else if k == 3 {
        "@"@
    } else if k == 4 {
        "!"@
    } else if k == 5 {
        "$"@
    } else if k == 6 {
        "&"@
    } else if k == 7 {
        "'"@
    } else if k == 8 {
        "("@
    } else if k == 9 {
        ")"@
    } else if k == 10 {
        "*"@
    } else if k == 11 {
        "+"@
    } else if k == 12 {
        ","@
    } else if k == 13 {
        ";"@
    } else {
        "="@
    }
}

/// The position of an escape in the list, read from its two digits.
spec fn code_rank(s: Seq<char>) -> int {
    if s[1] == '2' && s[2] == '0' {
        0
    } else if s[1] == '2' && s[2] == 'F' {
        1
    } else if s[1] == '3' && s[2] == 'A' {
        2
    } else if s[1] == '4' && s[2] == '0' {
        3
    } else if s[1] == '2' && s[2] == '1' {
        4
    } else if s[1] == '2' && s[2] == '4' {
        5
    } else if s[1] == '2' && s[2] == '6' {
        6
    } else if s[1] == '2' && s[2] == '7' {
        7
    } else if s[1] == '2' && s[2] == '8' {
        8
    } else if s[1] == '2' && s[2] == '9' {
        9
    } else if s[1] == '2' && s[2] == 'A' {
        10
    } else if s[1] == '2' && s[2] == 'B' {
        11
    } else if s[1] == '2' && s[2] == 'C' {
        12
    } else if s[1] == '3' && s[2] == 'B' {
        13
    } else if s[1] == '3' && s[2] == 'D' {
        14
    } else {
        15
    }
}

/// `c` as it stands in a path where the characters of `chosen` that are in
/// the list from position `from` on are escaped.
pub open spec fn escaped_char(c: char, chosen: Set<char>, from: int) -> Seq<char> {
    if chosen.contains(c) && from <= escape_rank(c) < 15 {
        rank_code(escape_rank(c))
    } else {
        seq![c]
    }
}

/// A path with the characters of `chosen` that are in the list from
/// position `from` on escaped.
pub open spec fn escaped_from(p: Seq<char>, chosen: Set<char>, from: int) -> Seq<char>
    decreases p.len(),
{
    if p.len() == 0 {
        Seq::empty()
    } else {
        escaped_char(p[0], chosen, from) + escaped_from(p.drop_first(), chosen, from)
    }
}

/// A path with each of its characters that are in `chosen` and in the list
/// (space, `/`, `:`, `@`, `!`, `$`, `&`, `'`, `(`, `)`, `*`, `+`, `,`, `;`
/// and `=`) written as its `%XX` escape.
pub open spec fn escaped(p: Seq<char>, chosen: Set<char>) -> Seq<char> {
    escaped_from(p, chosen, 0)
}

proof fn lemma_escape_table()
    ensures
        forall|k: int|
            0 <= k < 15 ==> (#[trigger] rank_code(k)).len() == 3 && rank_code(k)[0] == '%' && rank_code(k)[1] != '%'
                && rank_code(k)[2] != '%' && code_rank(rank_code(k)) == k,
        forall|c: char|
            0 <= #[trigger] escape_rank(c) <= 15 && (escape_rank(c) < 15 ==> rank_text(escape_rank(c)) == seq![c] && c != '%'),
{
    reveal_strlit("%20");
    reveal_strlit("%2F");
    reveal_strlit("%3A");
    reveal_strlit("%40");
    reveal_strlit("%21");
    reveal_strlit("%24");
    reveal_strlit("%26");
    reveal_strlit("%27");
    reveal_strlit("%28");
    reveal_strlit("%29");
    reveal_strlit("%2A");
    reveal_strlit("%2B");
    reveal_strlit("%2C");
    reveal_strlit("%3B");
    reveal_strlit("%3D");
    reveal_strlit(" ");
    reveal_strlit("/");
    reveal_strlit(":");
    reveal_strlit("@");
    reveal_strlit("!");
    reveal_strlit("$");
    reveal_strlit("&");
    reveal_strlit("'");
    reveal_strlit("(");
    reveal_strlit(")");
    reveal_strlit("*");
    reveal_strlit("+");
    reveal_strlit(",");
    reveal_strlit(";");
    reveal_strlit("=");
    assert forall|k: int|
        0 <= k < 15 implies (#[trigger] rank_code(k)).len() == 3 && rank_code(k)[0] == '%' && rank_code(k)[1] != '%'
            && rank_code(k)[2] != '%' && code_rank(rank_code(k)) == k by {
        if k == 0 {
        } else if k == 1 {
        } else if k == 2 {
        } else if k == 3 {
        } else if k == 4 {
        } else if k == 5 {
        } else if k == 6 {
        } else if k == 7 {
        } else if k == 8 {
        } else if k == 9 {
        } else if k == 10 {
        } else if k == 11 {
        } else if k == 12 {
        } else if k == 13 {
        } else if k == 14 {
        } else {
        }
    }
    assert forall|c: char| 0 <= #[trigger] escape_rank(c) <= 15 && (escape_rank(c) < 15 ==> rank_text(escape_rank(c)) == seq![c] && c != '%') by {
        if escape_rank(c) < 15 {
            assert(rank_text(escape_rank(c)) =~= seq![c]);
        }
    }
}

/// A text that does not start with the first character of the pattern
/// keeps its first character.
proof fn lemma_replace_head(s: Seq<char>, pat: Seq<char>, rep: Seq<char>)
    requires
        pat.len() > 0,
        s.len() > 0,
        s[0] != pat[0],
    ensures
        replace_all(s, pat, rep) == seq![s[0]] + replace_all(s.drop_first(), pat, rep),
{
    if s.len() < pat.len() {
        assert(seq![s[0]] + s.drop_first() =~= s);
    } else {
        assert(s.subrange(0, pat.len() as int)[0] == s[0]);
    }
}

/// Decoding the escape at position `k` turns a path escaped from `k` on
/// into the path escaped from `k + 1` on.
proof fn lemma_decode_step(p: Seq<char>, chosen: Set<char>, k: int)
    requires
        0 <= k < 15,
        !p.contains('%'),
    ensures
        replace_all(escaped_from(p, chosen, k), rank_code(k), rank_text(k)) == escaped_from(p, chosen, k + 1),
    decreases p.len(),
{
    lemma_escape_table();
    let pat = rank_code(k);
    let rep = rank_text(k);
    if p.len() == 0 {
    } else {
        let x = p[0];
        let rest = p.drop_first();
        assert(x != '%') by {
            assert(p.contains(x));
        }
        assert(!rest.contains('%')) by {
            if rest.contains('%') {
                let j = choose|j: int| 0 <= j < rest.len() && rest[j] == '%';
                assert(p[j + 1] == '%');
            }
        }
        lemma_decode_step(rest, chosen, k);
        let re = escaped_from(rest, chosen, k);
        let s = escaped_from(p, chosen, k);
        let r = escape_rank(x);
        if chosen.contains(x) && k <= r < 15 {
            let code = rank_code(r);
            assert(s == code + re);
            if r == k {
                assert(s.subrange(0, 3) =~= pat);
                assert(s.subrange(3, s.len() as int) =~= re);
                assert(rep == seq![x]);
            } else {
                assert(code_rank(code) != code_rank(pat));
                assert(s.subrange(0, 3) =~= code);
                assert(s.subrange(0, 3) != pat);
                let t1 = s.drop_first();
                let t2 = t1.drop_first();
                assert(t1[0] == code[1]);
                assert(t2[0] == code[2]);
                lemma_replace_head(t1, pat, rep);
                lemma_replace_head(t2, pat, rep);
                assert(t2.drop_first() =~= re);
                assert(replace_all(s, pat, rep) == seq![s[0]] + replace_all(t1, pat, rep));
                assert(code =~= seq![s[0]] + seq![t1[0]] + seq![t2[0]]);
                assert(replace_all(s, pat, rep) =~= code + replace_all(re, pat, rep));
            }
        } else {
            assert(s == seq![x] + re);
            lemma_replace_head(s, pat, rep);
            assert(s.drop_first() =~= re);
        }
    }
}

/// With no position left to escape, the path stands as it is.
proof fn lemma_escaped_from_end(p: Seq<char>, chosen: Set<char>)
    ensures
        escaped_from(p, chosen, 15) == p,
    decreases p.len(),
{
    if p.len() > 0 {
        lemma_escaped_from_end(p.drop_first(), chosen);
        assert(seq![p[0]] + p.drop_first() =~= p);
    }
}

/// Decoding a `file://` URL undoes the escaping of each of the fifteen
/// listed characters: for a path without `%`, any of its space, `/`, `:`,
/// `@`, `!`, `$`, `&`, `'`, `(`, `)`, `*`, `+`, `,`, `;` and `=` characters
/// (those in `chosen`) written as their `%XX` escapes, the URL gives the
/// path back.
pub proof fn lemma_file_url_undoes_escapes(p: Seq<char>, chosen: Set<char>)
    requires
        !p.contains('%'),
    ensures
        parse_file_url_spec("file://"@ + escaped(p, chosen)) == Some(p),
{
    reveal_strlit("file://");
    let e = escaped(p, chosen);
    let url = "file://"@ + e;
    assert(url.subrange(0, 7) =~= "file://"@);
    assert(url.subrange(7, url.len() as int) =~= e);
    lemma_decode_step(p, chosen, 0);
    lemma_decode_step(p, chosen, 1);
    lemma_decode_step(p, chosen, 2);
    lemma_decode_step(p, chosen, 3);
    lemma_decode_step(p, chosen, 4);
    lemma_decode_step(p, chosen, 5);
    lemma_decode_step(p, chosen, 6);
    lemma_decode_step(p, chosen, 7);
    lemma_decode_step(p, chosen, 8);
    lemma_decode_step(p, chosen, 9);
    lemma_decode_step(p, chosen, 10);
    lemma_decode_step(p, chosen, 11);
    lemma_decode_step(p, chosen, 12);
    lemma_decode_step(p, chosen, 13);
    lemma_decode_step(p, chosen, 14);
    lemma_escaped_from_end(p, chosen);
}

} // verus!
