//! Note-title helpers: sanitizing a title into a portable filename, reading
//! the stem of a listed file path, and checking a title for uniqueness
//! against a file listing.

use vstd::prelude::*;

use crate::text::chars_of;
use crate::text::is_unicode_whitespace;
use crate::text::str_eq;
use crate::text::string_of_range;

verus! {

/// A set of characters that trimming removes from both ends of a string.
#[derive(Clone, Copy)]
pub enum CutSet {
    Whitespace,
    Dashes,
    Quotes,
}

pub open spec fn in_cut_set(c: char, set: CutSet) -> bool {
    match set {
        CutSet::Whitespace => is_unicode_whitespace(c),
        CutSet::Dashes => c == '-',
        CutSet::Quotes => c == '\'' || c == '"',
    }
}

fn in_cut_set_exec(c: char, set: CutSet) -> (r: bool)
    ensures
        r == in_cut_set(c, set),
{
    match set {
        CutSet::Whitespace => c.is_whitespace(),
        CutSet::Dashes => c == '-',
        CutSet::Quotes => c == '\'' || c == '"',
    }
}

/// The first position at or after `i` whose character is not in the set.
pub open spec fn trim_start_at(s: Seq<char>, set: CutSet, i: int) -> int
    decreases s.len() - i,
{
    if 0 <= i < s.len() && in_cut_set(s[i], set) {
        trim_start_at(s, set, i + 1)
    } else {
        i
    }
}

/// The position after the last character at or before `j` that is not in the
/// set.
pub open spec fn trim_end_at(s: Seq<char>, set: CutSet, j: int) -> int
    decreases j,
{
    if 0 < j <= s.len() && in_cut_set(s[j - 1], set) {
        trim_end_at(s, set, j - 1)
    } else {
        j
    }
}

/// The sequence with set-characters removed from both ends.
pub open spec fn trimmed(s: Seq<char>, set: CutSet) -> Seq<char> {
    let a = trim_start_at(s, set, 0);
    let b = trim_end_at(s, set, s.len() as int);
    if a <= b {
        s.subrange(a, b)
    } else {
        Seq::empty()
    }
}

pub(crate) fn trim_chars(cs: &Vec<char>, set: CutSet) -> (r: Vec<char>)
    ensures
        r@ == trimmed(cs@, set),
{
    let n: usize = cs.len();
    let mut a: usize = 0;
    while a < n && in_cut_set_exec(cs[a], set)
        invariant
            n == cs@.len(),
            a <= n,
            trim_start_at(cs@, set, 0) == trim_start_at(cs@, set, a as int),
        decreases n - a,
    {
        a = a + 1;
    }
    assert(trim_start_at(cs@, set, 0) == a as int);
    let mut b: usize = n;
    while b > 0 && in_cut_set_exec(cs[b - 1], set)
        invariant
            n == cs@.len(),
            b <= n,
            trim_end_at(cs@, set, n as int) == trim_end_at(cs@, set, b as int),
        decreases b,
    {
        b = b - 1;
    }
    assert(trim_end_at(cs@, set, n as int) == b as int);
    let mut r: Vec<char> = Vec::new();
    if a < b {
        let mut k: usize = a;
        while k < b
            invariant
                n == cs@.len(),
                a <= k <= b <= n,
                r@ == cs@.subrange(a as int, k as int),
            decreases b - k,
        {
            r.push(cs[k]);
            proof {
                assert(r@ =~= cs@.subrange(a as int, k + 1));
            }
            k = k + 1;
        }
    } else {
        proof {
            if a as int <= b as int {
                assert(cs@.subrange(a as int, b as int) =~= Seq::<char>::empty());
            }
        }
    }
    r
}

/// A character that cannot stand in a filename on common systems.
pub open spec fn is_unsafe_filename_char(c: char) -> bool {
    c == '<' || c == '>' || c == ':' || c == '/' || c == '\\' || c == '|' || c == '?' || c == '*'
        || c == '\n' || c == '\r' || c == '\t' || c == '.'
}

/// A space or an unsafe character becomes a hyphen; everything else stays.
pub open spec fn dash_char(c: char) -> char {
    if c == ' ' || is_unsafe_filename_char(c) {
        '-'
    } else {
        c
    }
}

pub open spec fn dashified(s: Seq<char>) -> Seq<char> {
    s.map_values(|c: char| dash_char(c))
}

fn dash_char_exec(c: char) -> (r: char)
    ensures
        r == dash_char(c),
{
    if c == ' ' || c == '<' || c == '>' || c == ':' || c == '/' || c == '\\' || c == '|' || c == '?'
        || c == '*' || c == '\n' || c == '\r' || c == '\t' || c == '.' {
        '-'
    } else {
        c
    }
}

fn dashify(cs: &Vec<char>) -> (r: Vec<char>)
    ensures
        r@ == dashified(cs@),
{
    let mut r: Vec<char> = Vec::new();
    let mut i: usize = 0;
    while i < cs.len()
        invariant
            i <= cs@.len(),
            r@.len() == i,
            forall|j: int| 0 <= j < i ==> r@[j] == dash_char(cs@[j]),
        decreases cs@.len() - i,
    {
        r.push(dash_char_exec(cs[i]));
        i = i + 1;
    }
    proof {
        assert(r@ =~= dashified(cs@));
    }
    r
}

/// Runs of hyphens collapse to a single hyphen.
pub open spec fn collapsed(s: Seq<char>) -> Seq<char>
    decreases s.len(),
{
    if s.len() == 0 {
        Seq::empty()
    } else if s.len() == 1 {
        s
    } else if s[0] == '-' && s[1] == '-' {
        collapsed(s.skip(1))
    } else {
        seq![s[0]] + collapsed(s.skip(1))
    }
}

proof fn lemma_collapsed_snoc(s: Seq<char>, c: char)
    ensures
        collapsed(s.push(c)) == (if s.len() > 0 && s[s.len() - 1] == '-' && c == '-' {
            collapsed(s)
        } else {
            collapsed(s).push(c)
        }),
    decreases s.len(),
{
    let t = s.push(c);
    if s.len() == 0 {
        assert(t.len() == 1);
        assert(collapsed(t) == t);
        assert(collapsed(s).push(c) =~= t);
    } else if s.len() == 1 {
        assert(t.len() == 2 && t[0] == s[0] && t[1] == c);
        assert(t.skip(1) =~= seq![c]);
        assert(collapsed(t.skip(1)) == seq![c]);
        assert(collapsed(s) == s);
        if s[0] == '-' && c == '-' {
            assert(collapsed(t) == collapsed(t.skip(1)));
            assert(collapsed(t) =~= collapsed(s));
        } else {
            assert(collapsed(t) == seq![t[0]] + collapsed(t.skip(1)));
            assert(collapsed(t) =~= collapsed(s).push(c));
        }
    } else {
        assert(t[0] == s[0] && t[1] == s[1]);
        assert(t.skip(1) =~= s.skip(1).push(c));
        lemma_collapsed_snoc(s.skip(1), c);
        assert(s.skip(1)[s.skip(1).len() - 1] == s[s.len() - 1]);
        if s[0] == '-' && s[1] == '-' {
            assert(collapsed(t) == collapsed(s.skip(1).push(c)));
            assert(collapsed(s) == collapsed(s.skip(1)));
        } else {
            assert(collapsed(t) == seq![s[0]] + collapsed(s.skip(1).push(c)));
            assert(collapsed(s) == seq![s[0]] + collapsed(s.skip(1)));
            if s[s.len() - 1] == '-' && c == '-' {
            } else {
                assert(seq![s[0]] + collapsed(s.skip(1)).push(c) =~= (seq![s[0]] + collapsed(
                    s.skip(1),
                )).push(c));
            }
        }
    }
}

fn collapse_dashes(cs: &Vec<char>) -> (r: Vec<char>)
    ensures
        r@ == collapsed(cs@),
{
    let mut r: Vec<char> = Vec::new();
    let mut i: usize = 0;
    while i < cs.len()
        invariant
            i <= cs@.len(),
            r@ == collapsed(cs@.subrange(0, i as int)),
        decreases cs@.len() - i,
    {
        let c = cs[i];
        proof {
            assert(cs@.subrange(0, i + 1) =~= cs@.subrange(0, i as int).push(c));
            lemma_collapsed_snoc(cs@.subrange(0, i as int), c);
        }
        if !(i > 0 && cs[i - 1] == '-' && c == '-') {
            r.push(c);
        }
        i = i + 1;
    }
    proof {
        assert(cs@.subrange(0, cs@.len() as int) =~= cs@);
    }
    r
}

/// What sanitizing a title yields: trim whitespace, turn spaces and unsafe
/// characters into hyphens, collapse hyphen runs, trim hyphens from both
/// ends, and fall back to `Untitled` when nothing remains.
pub open spec fn spec_sanitize(title: Seq<char>) -> Seq<char> {
    let cleaned = trimmed(
        collapsed(dashified(trimmed(title, CutSet::Whitespace))),
        CutSet::Dashes,
    );
    if cleaned.len() == 0 {
        "Untitled"@
    } else {
        cleaned
    }
}

/// Sanitizes a title string into a valid, portable filename.
pub fn sanitize_title(title: &str) -> (r: String)
    ensures
        r@ == spec_sanitize(title@),
{
    let cs = chars_of(title);
    let t1 = trim_chars(&cs, CutSet::Whitespace);
    let t2 = dashify(&t1);
    let t3 = collapse_dashes(&t2);
    let t4 = trim_chars(&t3, CutSet::Dashes);
    if t4.len() == 0 {
        String::from_str("Untitled")
    } else {
        let r = string_of_range(&t4, 0, t4.len());
        proof {
            assert(t4@.subrange(0, t4@.len() as int) =~= t4@);
        }
        r
    }
}

/// The start of a path's final component: the position just after the last
/// `/`, read on the plain path text (as file listings hand it over).
pub open spec fn base_start(s: Seq<char>, j: int) -> int
    decreases j,
{
    if 0 < j <= s.len() && s[j - 1] != '/' {
        base_start(s, j - 1)
    } else {
        j
    }
}

/// The position of the last `.` strictly after the component's first
/// character, or 0 when there is none: the cut point for a file stem.
pub open spec fn last_dot_at(s: Seq<char>, j: int) -> int
    decreases j,
{
    if 1 < j <= s.len() {
        if s[j - 1] == '.' {
            j - 1
        } else {
            last_dot_at(s, j - 1)
        }
    } else {
        0
    }
}

/// The stem of a listed file path: its final component without the
/// extension, with the same reading as `Path::file_stem` for plain
/// `dir/name.ext` paths — the whole component when it has no `.` past its
/// first character, none at all for an empty, `.` or `..` component.
pub open spec fn stem_of(path: Seq<char>) -> Option<Seq<char>> {
    let name = path.skip(base_start(path, path.len() as int));
    if name.len() == 0 || name == "."@ || name == ".."@ {
        None
    } else {
        let k = last_dot_at(name, name.len() as int);
        if k >= 1 {
            Some(name.subrange(0, k))
        } else {
            Some(name)
        }
    }
}

fn file_stem_of(path: &str) -> (r: Option<String>)
    ensures
        (match (r, stem_of(path@)) {
            (Some(s), Some(sv)) => s@ == sv,
            (None, None) => true,
            _ => false,
        }),
{
    proof {
        reveal_strlit(".");
        reveal_strlit("..");
        assert("."@.len() == 1 && "."@[0] == '.');
        assert(".."@.len() == 2 && ".."@[0] == '.' && ".."@[1] == '.');
    }
    let cs = chars_of(path);
    let n: usize = cs.len();
    let mut j: usize = n;
    while j > 0 && cs[j - 1] != '/'
        invariant
            cs@ == path@,
            n == cs@.len(),
            j <= n,
            base_start(cs@, n as int) == base_start(cs@, j as int),
        decreases j,
    {
        j = j - 1;
    }
    assert(base_start(cs@, n as int) == j as int);
    let mut name: Vec<char> = Vec::new();
    let mut k: usize = j;
    while k < n
        invariant
            cs@ == path@,
            n == cs@.len(),
            j <= k <= n,
            name@ == cs@.subrange(j as int, k as int),
        decreases n - k,
    {
        name.push(cs[k]);
        proof {
            assert(name@ =~= cs@.subrange(j as int, k + 1));
        }
        k = k + 1;
    }
    proof {
        assert(cs@.subrange(j as int, n as int) =~= cs@.skip(j as int));
    }
    let m: usize = name.len();
    if m == 0 {
        return None;
    }
    if m == 1 && name[0] == '.' {
        assert(name@ =~= "."@);
        return None;
    }
    if m == 2 && name[0] == '.' && name[1] == '.' {
        assert(name@ =~= ".."@);
        return None;
    }
    assert(name@ != "."@ && name@ != ".."@) by {
        if name@ == "."@ {
            assert(name@.len() == 1 && name@[0] == '.');
        }
        if name@ == ".."@ {
            assert(name@.len() == 2 && name@[0] == '.' && name@[1] == '.');
        }
    };
    let mut d: usize = m;
    while d > 1 && name[d - 1] != '.'
        invariant
            m == name@.len(),
            d <= m,
            last_dot_at(name@, m as int) == last_dot_at(name@, d as int),
        decreases d,
    {
        d = d - 1;
    }
    let cut: usize = if d > 1 && name[d - 1] == '.' {
        d - 1
    } else {
        0
    };
    assert(last_dot_at(name@, m as int) == cut as int);
    if cut >= 1 {
        Some(string_of_range(&name, 0, cut))
    } else {
        let r = string_of_range(&name, 0, m);
        proof {
            assert(name@.subrange(0, m as int) =~= name@);
        }
        Some(r)
    }
}

/// Whether a listed file's stem names the same note as `title`: both are
/// sanitized and compared.
pub open spec fn stem_matches(path: Seq<char>, title: Seq<char>) -> bool {
    match stem_of(path) {
        Some(st) => spec_sanitize(st) == spec_sanitize(title),
        None => false,
    }
}

/// Checks whether a title is unique against a listing of the vault's files:
/// true exactly when no listed file's sanitized stem equals the sanitized
/// title.
pub fn check_unique_title(title: &str, files: &Vec<String>) -> (r: bool)
    ensures
        r == (forall|i: int| 0 <= i < files@.len() ==> !stem_matches(files@[i]@, title@)),
{
    let target = sanitize_title(title);
    let mut i: usize = 0;
    while i < files.len()
        invariant
            i <= files@.len(),
            target@ == spec_sanitize(title@),
            forall|j: int| 0 <= j < i ==> !stem_matches(files@[j]@, title@),
        decreases files@.len() - i,
    {
        let f: &String = &files[i];
        match file_stem_of(f.as_str()) {
            Some(st) => {
                let s = sanitize_title(st.as_str());
                if str_eq(s.as_str(), target.as_str()) {
                    assert(stem_matches(files@[i as int]@, title@));
                    return false;
                }
            },
            None => {},
        }
        i = i + 1;
    }
    true
}

} // verus!
