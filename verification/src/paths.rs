//! Path text helpers: turning a vault-relative path into an absolute one by
//! joining it onto the vault directory, the way `Path::join` spells it.

use vstd::prelude::*;

use crate::text::chars_of;
use crate::text::push_char;

verus! {

/// The first position at or after `i` past any leading `/` characters.
pub open spec fn past_slashes(s: Seq<char>, i: int) -> int
    decreases s.len() - i,
{
    if 0 <= i < s.len() && s[i] == '/' {
        past_slashes(s, i + 1)
    } else {
        i
    }
}

/// The first position at or after `i` past any repeated `./` prefixes.
pub open spec fn past_dot_slashes(s: Seq<char>, i: int) -> int
    decreases s.len() - i,
{
    if 0 <= i && i + 1 < s.len() && s[i] == '.' && s[i + 1] == '/' {
        past_dot_slashes(s, i + 2)
    } else {
        i
    }
}

/// A relative path with leading slashes stripped, then leading `./` pieces
/// stripped.
pub open spec fn cleaned_path(s: Seq<char>) -> Seq<char> {
    s.skip(past_dot_slashes(s, past_slashes(s, 0)))
}

/// How `Path::join` puts a base and a (possibly empty) relative path
/// together: an absolute right-hand side replaces the base; an empty base
/// yields the right-hand side; otherwise exactly one `/` separates them.
pub open spec fn joined_path(vault: Seq<char>, c: Seq<char>) -> Seq<char> {
    if c.len() > 0 && c[0] == '/' {
        c
    } else if vault.len() == 0 {
        c
    } else if vault[vault.len() - 1] == '/' {
        vault + c
    } else {
        vault + seq!['/'] + c
    }
}

/// Converts a path relative to the vault directory to an absolute path,
/// joining it onto the vault directory after stripping any leading `/` and
/// `./` prefixes.
pub fn relative_to_absolute(relative_path: &str, vault_directory: &str) -> (r: String)
    ensures
        r@ == joined_path(vault_directory@, cleaned_path(relative_path@)),
{
    let cs = chars_of(relative_path);
    let n: usize = cs.len();
    let mut i: usize = 0;
    while i < n && cs[i] == '/'
        invariant
            cs@ == relative_path@,
            n == cs@.len(),
            0 <= i <= n,
            past_slashes(cs@, 0) == past_slashes(cs@, i as int),
        decreases n - i,
    {
        i = i + 1;
    }
    assert(past_slashes(cs@, 0) == i as int);
    while i < n && cs[i] == '.' && i + 1 < n && cs[i + 1] == '/'
        invariant
            cs@ == relative_path@,
            n == cs@.len(),
            0 <= i <= n,
            past_dot_slashes(cs@, past_slashes(cs@, 0)) == past_dot_slashes(cs@, i as int),
        decreases n - i,
    {
        i = i + 2;
    }
    assert(past_dot_slashes(cs@, past_slashes(cs@, 0)) == i as int);
    let ghost c = cleaned_path(relative_path@);
    assert(c == cs@.skip(i as int));
    let starts_abs = i < n && cs[i] == '/';
    let vn: usize = vault_directory.unicode_len();
    let mut r: String = if starts_abs {
        String::new()
    } else if vn == 0 {
        String::new()
    } else if vault_directory.get_char(vn - 1) == '/' {
        vault_directory.to_owned()
    } else {
        let mut base = vault_directory.to_owned();
        push_char(&mut base, '/');
        base
    };
    let ghost prefix = r@;
    assert(prefix + c =~= joined_path(vault_directory@, c)) by {
        if c.len() > 0 && c[0] == '/' {
            assert(cs@.skip(i as int)[0] == cs@[i as int]);
            assert(prefix =~= Seq::<char>::empty());
            assert(prefix + c =~= c);
        } else if vault_directory@.len() == 0 {
            assert(prefix + c =~= c);
        } else if vault_directory@[vault_directory@.len() - 1] == '/' {
            assert(prefix + c =~= vault_directory@ + c);
        } else {
            assert(prefix =~= vault_directory@ + seq!['/']);
            assert(prefix + c =~= vault_directory@ + seq!['/'] + c);
        }
    };
    proof {
        assert(prefix + cs@.subrange(i as int, i as int) =~= prefix);
    }
    let mut k: usize = i;
    while k < n
        invariant
            cs@ == relative_path@,
            n == cs@.len(),
            i <= k <= n,
            r@ == prefix + cs@.subrange(i as int, k as int),
        decreases n - k,
    {
        push_char(&mut r, cs[k]);
        proof {
            assert(r@ =~= prefix + cs@.subrange(i as int, k + 1));
        }
        k = k + 1;
    }
    proof {
        assert(cs@.subrange(i as int, n as int) =~= cs@.skip(i as int));
        assert(r@ == prefix + c);
    }
    r
}

} // verus!
