//! Shared character and string helpers: Unicode character classes (trusted
//! from std), string/char conversions, case-insensitive comparison against
//! ASCII patterns, and lexicographic ordering of character sequences.

use vstd::prelude::*;

verus! {

/// Whether `c` has the Unicode white-space property, exactly as
/// `char::is_whitespace` decides it.
pub uninterp spec fn is_unicode_whitespace(c: char) -> bool;

/// Whether `c` is Unicode alphanumeric, exactly as `char::is_alphanumeric`
/// decides it.
pub uninterp spec fn is_unicode_alphanumeric(c: char) -> bool;

/// Relies on char::is_whitespace: a pure predicate on the character alone.
pub assume_specification[ char::is_whitespace ](c: char) -> (r: bool)
    ensures
        r == is_unicode_whitespace(c),
;

/// Relies on char::is_alphanumeric: a pure predicate on the character alone.
pub assume_specification[ char::is_alphanumeric ](c: char) -> (r: bool)
    ensures
        r == is_unicode_alphanumeric(c),
;

/// Relies on String::push: appends exactly one character at the end.
#[verifier::external_body]
pub fn push_char(s: &mut String, c: char)
    ensures
        final(s)@ == old(s)@.push(c),
{
    s.push(c);
}

/// The characters of `s`, as a vector.
pub fn chars_of(s: &str) -> (r: Vec<char>)
    ensures
        r@ == s@,
{
    let n: usize = s.unicode_len();
    let mut r: Vec<char> = Vec::new();
    let mut i: usize = 0;
    while i < n
        invariant
            n == s@.len(),
            i <= n,
            r@ == s@.subrange(0, i as int),
        decreases n - i,
    {
        r.push(s.get_char(i));
        i = i + 1;
    }
    proof {
        assert(r@ =~= s@);
    }
    r
}

/// The string holding exactly the characters `cs[lo..hi]`.
pub fn string_of_range(cs: &Vec<char>, lo: usize, hi: usize) -> (r: String)
    requires
        lo <= hi <= cs@.len(),
    ensures
        r@ == cs@.subrange(lo as int, hi as int),
{
    let mut r: String = String::new();
    let mut i: usize = lo;
    while i < hi
        invariant
            lo <= i <= hi <= cs@.len(),
            r@ == cs@.subrange(lo as int, i as int),
        decreases hi - i,
    {
        push_char(&mut r, cs[i]);
        proof {
            assert(r@ =~= cs@.subrange(lo as int, i + 1));
        }
        i = i + 1;
    }
    r
}

/// Characters equal up to ASCII case: equal outright, or the same letter with
/// one side an ASCII upper-case letter and the other its lower-case form.
pub open spec fn eqi_char(a: char, b: char) -> bool {
    a == b || (is_ascii_upper(a) && a as u32 + 32 == b as u32) || (is_ascii_upper(b) && b as u32
        + 32 == a as u32)
}

pub open spec fn is_ascii_upper(c: char) -> bool {
    'A' <= c && c <= 'Z'
}

/// Sequences equal up to ASCII case, character by character.
pub open spec fn eqi_seq(a: Seq<char>, b: Seq<char>) -> bool {
    a.len() == b.len() && (forall|k: int| 0 <= k < a.len() ==> eqi_char(a[k], b[k]))
}

fn eqi_char_exec(a: char, b: char) -> (r: bool)
    ensures
        r == eqi_char(a, b),
{
    a == b || ('A' <= a && a <= 'Z' && a as u32 + 32 == b as u32) || ('A' <= b && b <= 'Z' && b
        as u32 + 32 == a as u32)
}

/// Whether `cs[lo..hi]` equals `pat` up to ASCII case.
pub fn range_eqi_str(cs: &Vec<char>, lo: usize, hi: usize, pat: &str) -> (r: bool)
    requires
        lo <= hi <= cs@.len(),
    ensures
        r == eqi_seq(cs@.subrange(lo as int, hi as int), pat@),
{
    let m: usize = pat.unicode_len();
    if hi - lo != m {
        return false;
    }
    let mut k: usize = 0;
    while k < m
        invariant
            lo <= hi <= cs@.len(),
            hi - lo == m == pat@.len(),
            k <= m,
            forall|j: int| 0 <= j < k ==> eqi_char(cs@.subrange(lo as int, hi as int)[j], pat@[j]),
        decreases m - k,
    {
        if !eqi_char_exec(cs[lo + k], pat.get_char(k)) {
            assert(!eqi_char(cs@.subrange(lo as int, hi as int)[k as int], pat@[k as int]));
            return false;
        }
        k = k + 1;
    }
    true
}

/// Whether `s` equals `pat` up to ASCII case.
pub fn str_eqi(s: &str, pat: &str) -> (r: bool)
    ensures
        r == eqi_seq(s@, pat@),
{
    let n: usize = s.unicode_len();
    let m: usize = pat.unicode_len();
    if n != m {
        return false;
    }
    let mut k: usize = 0;
    while k < m
        invariant
            n == s@.len(),
            m == pat@.len(),
            n == m,
            k <= m,
            forall|j: int| 0 <= j < k ==> eqi_char(s@[j], pat@[j]),
        decreases m - k,
    {
        if !eqi_char_exec(s.get_char(k), pat.get_char(k)) {
            return false;
        }
        k = k + 1;
    }
    true
}

/// Exact equality of the character sequences of two strings.
pub fn str_eq(a: &str, b: &str) -> (r: bool)
    ensures
        r == (a@ == b@),
{
    let n: usize = a.unicode_len();
    let m: usize = b.unicode_len();
    if n != m {
        return false;
    }
    let mut k: usize = 0;
    while k < n
        invariant
            n == a@.len(),
            m == b@.len(),
            n == m,
            k <= n,
            forall|j: int| 0 <= j < k ==> a@[j] == b@[j],
        decreases n - k,
    {
        if a.get_char(k) != b.get_char(k) {
            assert(a@[k as int] != b@[k as int]);
            return false;
        }
        k = k + 1;
    }
    proof {
        assert(a@ =~= b@);
    }
    true
}

/// Strict lexicographic order on character sequences, by Unicode code point:
/// the order jq uses for strings, and the order `str` comparison uses.
pub open spec fn lex_lt(a: Seq<char>, b: Seq<char>) -> bool
    decreases a.len(),
{
    if b.len() == 0 {
        false
    } else if a.len() == 0 {
        true
    } else if a[0] != b[0] {
        (a[0] as u32) < (b[0] as u32)
    } else {
        lex_lt(a.skip(1), b.skip(1))
    }
}

proof fn lemma_char_cast_injective(x: char, y: char)
    ensures
        (x as u32 == y as u32) ==> x == y,
{
    assert((x as u32) as char == x);
    assert((y as u32) as char == y);
}

pub proof fn lemma_lex_irreflexive(a: Seq<char>)
    ensures
        !lex_lt(a, a),
    decreases a.len(),
{
    if a.len() > 0 {
        lemma_lex_irreflexive(a.skip(1));
    }
}

pub proof fn lemma_lex_connected(a: Seq<char>, b: Seq<char>)
    ensures
        lex_lt(a, b) || lex_lt(b, a) || a == b,
    decreases a.len(),
{
    if a.len() == 0 && b.len() == 0 {
        assert(a =~= b);
    } else if a.len() == 0 || b.len() == 0 {
        assert(lex_lt(a, b) || lex_lt(b, a));
    } else if a[0] != b[0] {
        lemma_char_cast_injective(a[0], b[0]);
        assert(lex_lt(a, b) || lex_lt(b, a));
    } else if a.len() > 0 && b.len() > 0 && a[0] == b[0] {
        lemma_lex_connected(a.skip(1), b.skip(1));
        if !lex_lt(a, b) && !lex_lt(b, a) {
            assert(a.skip(1) == b.skip(1));
            assert forall|i: int| 0 <= i < a.len() implies a[i] == b[i] by {
                if i > 0 {
                    assert(a[i] == a.skip(1)[i - 1]);
                    assert(b[i] == b.skip(1)[i - 1]);
                }
            }
            assert(a =~= b);
        }
    }
}

proof fn lemma_lex_skip_step(a: Seq<char>, b: Seq<char>, k: int)
    requires
        0 <= k < a.len(),
        0 <= k < b.len(),
        a[k] == b[k],
    ensures
        lex_lt(a.skip(k), b.skip(k)) == lex_lt(a.skip(k + 1), b.skip(k + 1)),
        lex_lt(b.skip(k), a.skip(k)) == lex_lt(b.skip(k + 1), a.skip(k + 1)),
        (a.skip(k) == b.skip(k)) == (a.skip(k + 1) == b.skip(k + 1)),
{
    assert(a.skip(k)[0] == a[k]);
    assert(b.skip(k)[0] == b[k]);
    assert(a.skip(k).skip(1) =~= a.skip(k + 1));
    assert(b.skip(k).skip(1) =~= b.skip(k + 1));
    assert(lex_lt(a.skip(k), b.skip(k)) == lex_lt(a.skip(k).skip(1), b.skip(k).skip(1)));
    assert(lex_lt(b.skip(k), a.skip(k)) == lex_lt(b.skip(k).skip(1), a.skip(k).skip(1)));
    if a.skip(k) == b.skip(k) {
        assert(a.skip(k + 1) == b.skip(k + 1));
    }
    if a.skip(k + 1) == b.skip(k + 1) {
        assert forall|i: int| 0 <= i < a.skip(k).len() implies a.skip(k)[i] == b.skip(k)[i] by {
            if i > 0 {
                assert(a.skip(k)[i] == a[k + i]);
                assert(a.skip(k + 1)[i - 1] == a[k + i]);
                assert(b.skip(k)[i] == b[k + i]);
                assert(b.skip(k + 1)[i - 1] == b[k + i]);
            }
        }
        assert(a.skip(k) =~= b.skip(k));
    }
}

/// Three-way lexicographic comparison of two strings by code point:
/// 0 for equal, 1 for `a` before `b`, 2 for `b` before `a`.
pub fn lex_cmp(a: &str, b: &str) -> (r: u8)
    ensures
        (r == 0) == (a@ == b@),
        (r == 1) == lex_lt(a@, b@),
        (r == 2) == lex_lt(b@, a@),
{
    proof {
        lemma_lex_irreflexive(a@);
        lemma_lex_irreflexive(b@);
        assert(a@.skip(0) =~= a@);
        assert(b@.skip(0) =~= b@);
    }
    let n: usize = a.unicode_len();
    let m: usize = b.unicode_len();
    let mut k: usize = 0;
    loop
        invariant
            n == a@.len(),
            m == b@.len(),
            k <= n,
            k <= m,
            lex_lt(a@, b@) == lex_lt(a@.skip(k as int), b@.skip(k as int)),
            lex_lt(b@, a@) == lex_lt(b@.skip(k as int), a@.skip(k as int)),
            (a@ == b@) == (a@.skip(k as int) == b@.skip(k as int)),
        decreases n - k,
    {
        if k >= n || k >= m {
            if n == m {
                proof {
                    assert(a@.skip(k as int) =~= b@.skip(k as int));
                }
                return 0;
            } else if n < m {
                assert(a@.skip(k as int).len() == 0 && b@.skip(k as int).len() > 0);
                return 1;
            } else {
                assert(b@.skip(k as int).len() == 0 && a@.skip(k as int).len() > 0);
                return 2;
            }
        } else {
            let ca = a.get_char(k);
            let cb = b.get_char(k);
            assert(a@.skip(k as int)[0] == ca && b@.skip(k as int)[0] == cb);
            if (ca as u32) < (cb as u32) {
                assert(lex_lt(a@.skip(k as int), b@.skip(k as int)));
                assert(!lex_lt(b@.skip(k as int), a@.skip(k as int)));
                assert(a@.skip(k as int) != b@.skip(k as int));
                return 1;
            } else if (cb as u32) < (ca as u32) {
                assert(a@.skip(k as int) != b@.skip(k as int));
                return 2;
            } else {
                proof {
                    lemma_char_cast_injective(ca, cb);
                }
                assert(ca == cb);
                proof {
                    lemma_lex_skip_step(a@, b@, k as int);
                }
                k = k + 1;
            }
        }
    }
}

/// Escapes every regular-expression metacharacter in `s` with a backslash.
pub open spec fn is_regex_special(c: char) -> bool {
    c == '.' || c == '^' || c == '$' || c == '*' || c == '+' || c == '?' || c == '(' || c == ')'
        || c == '[' || c == ']' || c == '{' || c == '}' || c == '|' || c == '\\'
}

pub open spec fn spec_regex_escape(s: Seq<char>) -> Seq<char>
    decreases s.len(),
{
    if s.len() == 0 {
        Seq::empty()
    } else {
        let head: Seq<char> = if is_regex_special(s[0]) {
            seq!['\\', s[0]]
        } else {
            seq![s[0]]
        };
        head + spec_regex_escape(s.skip(1))
    }
}

proof fn lemma_regex_escape_snoc(s: Seq<char>, c: char)
    ensures
        spec_regex_escape(s.push(c)) == spec_regex_escape(s) + (if is_regex_special(c) {
            seq!['\\', c]
        } else {
            seq![c]
        }),
    decreases s.len(),
{
    let t = s.push(c);
    let tail: Seq<char> = if is_regex_special(c) {
        seq!['\\', c]
    } else {
        seq![c]
    };
    if s.len() == 0 {
        assert(t[0] == c);
        assert(t.skip(1) =~= Seq::<char>::empty());
        assert(spec_regex_escape(t.skip(1)) =~= Seq::<char>::empty());
        assert(spec_regex_escape(t) =~= tail);
        assert(spec_regex_escape(s) =~= Seq::<char>::empty());
        assert(spec_regex_escape(s) + tail =~= tail);
    } else {
        assert(t[0] == s[0]);
        assert(t.skip(1) =~= s.skip(1).push(c));
        lemma_regex_escape_snoc(s.skip(1), c);
        let head: Seq<char> = if is_regex_special(s[0]) {
            seq!['\\', s[0]]
        } else {
            seq![s[0]]
        };
        assert(spec_regex_escape(t) == head + spec_regex_escape(t.skip(1)));
        assert(spec_regex_escape(t.skip(1)) == spec_regex_escape(s.skip(1)) + tail);
        assert(spec_regex_escape(s) == head + spec_regex_escape(s.skip(1)));
        assert(spec_regex_escape(t) =~= spec_regex_escape(s) + tail);
    }
}

fn is_regex_special_exec(c: char) -> (r: bool)
    ensures
        r == is_regex_special(c),
{
    c == '.' || c == '^' || c == '$' || c == '*' || c == '+' || c == '?' || c == '(' || c == ')'
        || c == '[' || c == ']' || c == '{' || c == '}' || c == '|' || c == '\\'
}

/// Escapes special characters in a string for use in a regex pattern.
pub fn regex_escape(s: &str) -> (r: String)
    ensures
        r@ == spec_regex_escape(s@),
{
    let cs = chars_of(s);
    let mut r: String = String::new();
    let mut i: usize = 0;
    while i < cs.len()
        invariant
            cs@ == s@,
            i <= cs@.len(),
            r@ == spec_regex_escape(s@.subrange(0, i as int)),
        decreases cs@.len() - i,
    {
        let c = cs[i];
        proof {
            assert(s@.subrange(0, i + 1) =~= s@.subrange(0, i as int).push(c));
            lemma_regex_escape_snoc(s@.subrange(0, i as int), c);
        }
        if is_regex_special_exec(c) {
            push_char(&mut r, '\\');
        }
        push_char(&mut r, c);
        i = i + 1;
    }
    proof {
        assert(s@.subrange(0, s@.len() as int) =~= s@);
    }
    r
}

} // verus!
