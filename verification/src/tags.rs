//! Tag collection: turning the raw tag lines extracted from frontmatter
//! blocks into a sorted list of unique tags.

use vstd::prelude::*;

use crate::text::chars_of;
use crate::text::lex_cmp;
use crate::text::lex_lt;
use crate::text::lemma_lex_connected;
use crate::text::string_of_range;
use crate::titles::trim_chars;
use crate::titles::trimmed;
use crate::titles::CutSet;

verus! {

/// What one raw tag line contributes: the line with surrounding whitespace
/// trimmed, then surrounding single and double quotes trimmed. An empty
/// remainder contributes nothing.
pub open spec fn clean_tag(line: Seq<char>) -> Seq<char> {
    trimmed(trimmed(line, CutSet::Whitespace), CutSet::Quotes)
}

/// The tags in `lines[0..upto]` include `t`.
pub open spec fn lines_contain(lines: Seq<String>, upto: int, t: Seq<char>) -> bool {
    exists|j: int| 0 <= j < upto && clean_tag(#[trigger] lines[j]@) == t
}

/// Some entry of `r` reads `t`.
pub open spec fn result_contains(r: Seq<String>, t: Seq<char>) -> bool {
    exists|k: int| 0 <= k < r.len() && (#[trigger] r[k]@) == t
}

/// Strictly ascending in lexicographic order, hence free of duplicates.
pub open spec fn sorted_strict(r: Seq<String>) -> bool {
    forall|q: int| 0 <= q && q + 1 < r.len() ==> lex_lt(#[trigger] r[q]@, r[q + 1]@)
}

/// Collects the unique tags from the extracted tag lines, sorted: the result
/// is strictly ascending and holds exactly the nonempty cleaned lines.
pub fn get_all_tags(lines: &Vec<String>) -> (r: Vec<String>)
    ensures
        sorted_strict(r@),
        forall|k: int|
            0 <= k < r@.len() ==> (#[trigger] r@[k]@).len() > 0 && lines_contain(
                lines@,
                lines@.len() as int,
                r@[k]@,
            ),
        forall|j: int|
            0 <= j < lines@.len() && clean_tag(#[trigger] lines@[j]@).len() > 0 ==> result_contains(
                r@,
                clean_tag(lines@[j]@),
            ),
{
    let mut r: Vec<String> = Vec::new();
    let mut i: usize = 0;
    while i < lines.len()
        invariant
            i <= lines@.len(),
            sorted_strict(r@),
            forall|k: int|
                0 <= k < r@.len() ==> (#[trigger] r@[k]@).len() > 0 && lines_contain(
                    lines@,
                    i as int,
                    r@[k]@,
                ),
            forall|j: int|
                0 <= j < i && clean_tag(#[trigger] lines@[j]@).len() > 0 ==> result_contains(
                    r@,
                    clean_tag(lines@[j]@),
                ),
        decreases lines@.len() - i,
    {
        let line: &String = &lines[i];
        let cs = chars_of(line.as_str());
        let t1 = trim_chars(&cs, CutSet::Whitespace);
        let t2 = trim_chars(&t1, CutSet::Quotes);
        let ghost tv = clean_tag(lines@[i as int]@);
        assert(t2@ == tv);
        if t2.len() > 0 {
            let tag = string_of_range(&t2, 0, t2.len());
            proof {
                assert(t2@.subrange(0, t2@.len() as int) =~= t2@);
            }
            let ghost rb = r@;
            insert_tag(&mut r, tag);
            proof {
                assert(result_contains(r@, tv));
                assert forall|k: int| 0 <= k < r@.len() implies (#[trigger] r@[k]@).len() > 0
                    && lines_contain(lines@, i + 1, r@[k]@) by {
                    let t = r@[k]@;
                    assert(result_contains(r@, t));
                    if result_contains(rb, t) {
                        let q = choose|q: int| 0 <= q < rb.len() && (#[trigger] rb[q]@) == t;
                        assert(rb[q]@.len() > 0);
                        assert(lines_contain(lines@, i as int, t));
                        let j = choose|j: int|
                            0 <= j < i && clean_tag(#[trigger] lines@[j]@) == t;
                        assert(0 <= j < i + 1 && clean_tag(lines@[j]@) == t);
                        assert(lines_contain(lines@, i + 1, t));
                    } else {
                        assert(t == tag@);
                        assert(clean_tag(lines@[i as int]@) == t);
                        assert(lines_contain(lines@, i + 1, t));
                    }
                }
            }
        } else {
            proof {
                assert forall|k: int| 0 <= k < r@.len() implies lines_contain(
                    lines@,
                    i + 1,
                    #[trigger] r@[k]@,
                ) by {
                    let t = r@[k]@;
                    assert(lines_contain(lines@, i as int, t));
                    let j = choose|j: int| 0 <= j < i && clean_tag(#[trigger] lines@[j]@) == t;
                    assert(0 <= j < i + 1 && clean_tag(lines@[j]@) == t);
                }
            }
        }
        i = i + 1;
    }
    r
}

/// Puts `tag` into the sorted vector, keeping it strictly ascending; a tag
/// already present is left alone. The set of entries afterwards is the set
/// before plus `tag`.
fn insert_tag(r: &mut Vec<String>, tag: String)
    requires
        sorted_strict(old(r)@),
    ensures
        sorted_strict(final(r)@),
        forall|t: Seq<char>|
            #[trigger] result_contains(final(r)@, t) == (result_contains(old(r)@, t) || t
                == tag@),
{
    let ghost r0 = r@;
    let mut pos: usize = 0;
    while pos < r.len() && lex_cmp(r[pos].as_str(), tag.as_str()) == 1
        invariant
            r@ == r0,
            pos <= r@.len(),
            forall|q: int| 0 <= q < pos ==> lex_lt(#[trigger] r@[q]@, tag@),
        decreases r@.len() - pos,
    {
        pos = pos + 1;
    }
    if pos < r.len() {
        let c = lex_cmp(r[pos].as_str(), tag.as_str());
        proof {
            lemma_lex_connected(r@[pos as int]@, tag@);
        }
        if c == 0 {
            assert(r@[pos as int]@ == tag@);
            assert(result_contains(r@, tag@));
            assert(forall|t: Seq<char>|
                #[trigger] result_contains(r@, t) == (result_contains(r0, t) || t == tag@));
            return ;
        }
        assert(lex_lt(tag@, r@[pos as int]@));
    }
    proof {
        r0.insert_ensures(pos as int, tag);
    }
    r.insert(pos, tag);
    proof {
        let rn = r@;
        assert(rn.len() == r0.len() + 1);
        assert(rn[pos as int]@ == tag@);
        assert forall|q: int| 0 <= q && q + 1 < rn.len() implies lex_lt(
            #[trigger] rn[q]@,
            rn[q + 1]@,
        ) by {
            if q + 1 < pos {
                assert(rn[q] == r0[q] && rn[q + 1] == r0[q + 1]);
            } else if q + 1 == pos {
                assert(rn[q] == r0[q]);
                assert(lex_lt(r0[q]@, tag@));
            } else if q == pos {
                assert(rn[q + 1] == r0[q]);
                assert(lex_lt(tag@, r0[q]@));
            } else {
                assert(rn[q] == r0[q - 1] && rn[q + 1] == r0[q]);
            }
        }
        assert forall|t: Seq<char>|
            #[trigger] result_contains(rn, t) == (result_contains(r0, t) || t == tag@) by {
            if result_contains(rn, t) {
                let k = choose|k: int| 0 <= k < rn.len() && (#[trigger] rn[k]@) == t;
                if k < pos {
                    assert(r0[k]@ == t);
                } else if k == pos {
                } else {
                    assert(rn[k] == r0[k - 1]);
                    assert(r0[k - 1]@ == t);
                }
            }
            if result_contains(r0, t) {
                let k = choose|k: int| 0 <= k < r0.len() && (#[trigger] r0[k]@) == t;
                if k < pos {
                    assert(rn[k]@ == t);
                } else {
                    assert(rn[k + 1] == r0[k]);
                    assert(rn[k + 1]@ == t);
                }
            }
            if t == tag@ {
                assert(rn[pos as int]@ == t);
            }
        }
    }
}

} // verus!
