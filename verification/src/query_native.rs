//! The native query backend: note metadata records, the evaluation semantics
//! of a query expression over one record, and parallel evaluation over a
//! whole corpus.

use vstd::prelude::*;

use rayon::iter::IntoParallelIterator;
use rayon::iter::ParallelIterator;

use crate::query_parser::parse_query;
use crate::query_parser::spec_parse_query;
use crate::query_parser::Expr;
use crate::query_parser::ExprV;
use crate::query_parser::ParseError;
use crate::text::eqi_seq;
use crate::text::lex_cmp;
use crate::text::lex_lt;
use crate::text::str_eq;
use crate::text::str_eqi;

verus! {

/// Metadata of one note, as the corpus loader hands it over: a
/// corpus-relative path, a title, an optional ISO-8601 date string, and an
/// ordered sequence of tags.
#[derive(Debug)]
pub struct NoteMetadata {
    pub path: String,
    pub title: String,
    pub date: Option<String>,
    pub tags: Vec<String>,
}

/// The mathematical form of a note's metadata.
pub struct NoteV {
    pub path: Seq<char>,
    pub title: Seq<char>,
    pub date: Option<Seq<char>>,
    pub tags: Seq<Seq<char>>,
}

impl View for NoteMetadata {
    type V = NoteV;

    open spec fn view(&self) -> NoteV {
        NoteV {
            path: self.path@,
            title: self.title@,
            date: match self.date {
                Some(d) => Some(d@),
                None => None,
            },
            tags: self.tags@.map_values(|t: String| t@),
        }
    }
}

/// How one date comparison evaluates: lexicographic ordering of the two
/// strings, by code point, which on zero-padded ISO-8601 dates is date order.
pub open spec fn date_sat(d: Seq<char>, op: Seq<char>, v: Seq<char>) -> bool {
    if op == "="@ {
        d == v
    } else if op == "!="@ {
        d != v
    } else if op == ">="@ {
        !lex_lt(d, v)
    } else if op == "<="@ {
        !lex_lt(v, d)
    } else if op == ">"@ {
        lex_lt(v, d)
    } else if op == "<"@ {
        lex_lt(d, v)
    } else {
        false
    }
}

/// How one leaf condition evaluates on a note. Field names are matched
/// case-insensitively. `tag` with `=`/`!=` tests membership in the note's
/// tags; `date` compares the note's date, and is false when the note has
/// none; `title` supports only `=` and `!=`; any other field or operator
/// evaluates to false.
pub open spec fn cond_sat(field: Seq<char>, op: Seq<char>, value: Seq<char>, n: NoteV) -> bool {
    if eqi_seq(field, "tag"@) {
        if op == "="@ {
            n.tags.contains(value)
        } else if op == "!="@ {
            !n.tags.contains(value)
        } else {
            false
        }
    } else if eqi_seq(field, "date"@) {
        match n.date {
            Some(d) => date_sat(d, op, value),
            None => false,
        }
    } else if eqi_seq(field, "title"@) {
        if op == "="@ {
            n.title == value
        } else if op == "!="@ {
            n.title != value
        } else {
            false
        }
    } else {
        false
    }
}

/// Whether a note satisfies a query expression.
pub open spec fn sat(e: ExprV, n: NoteV) -> bool
    decreases e,
{
    match e {
        ExprV::Condition { field, op, value } => cond_sat(field, op, value, n),
        ExprV::And(l, r) => sat(*l, n) && sat(*r, n),
        ExprV::Or(l, r) => sat(*l, n) || sat(*r, n),
        ExprV::Not(sub) => !sat(*sub, n),
    }
}

fn has_tag(note: &NoteMetadata, value: &String) -> (r: bool)
    ensures
        r == note@.tags.contains(value@),
{
    let mut k: usize = 0;
    while k < note.tags.len()
        invariant
            k <= note.tags@.len(),
            forall|j: int| 0 <= j < k ==> note.tags@[j]@ != value@,
        decreases note.tags@.len() - k,
    {
        if str_eq(note.tags[k].as_str(), value.as_str()) {
            assert(note@.tags[k as int] == value@);
            return true;
        }
        k = k + 1;
    }
    assert(!note@.tags.contains(value@)) by {
        if note@.tags.contains(value@) {
            let j = choose|j: int| 0 <= j < note@.tags.len() && note@.tags[j] == value@;
            assert(note.tags@[j]@ == value@);
        }
    };
    false
}

/// Evaluates the query expression on one note's metadata.
pub fn evaluate_expr(note: &NoteMetadata, expr: &Expr) -> (r: bool)
    ensures
        r == sat(expr@, note@),
    decreases expr,
{
    match expr {
        Expr::Condition { field, op, value } => {
            proof {
                assert(sat(expr@, note@) == cond_sat(field@, op@, value@, note@));
            }
            if str_eqi(field.as_str(), "tag") {
                if str_eq(op.as_str(), "=") {
                    has_tag(note, value)
                } else if str_eq(op.as_str(), "!=") {
                    !has_tag(note, value)
                } else {
                    false
                }
            } else if str_eqi(field.as_str(), "date") {
                match &note.date {
                    Some(d) => {
                        let c = lex_cmp(d.as_str(), value.as_str());
                        if str_eq(op.as_str(), "=") {
                            c == 0
                        } else if str_eq(op.as_str(), "!=") {
                            c != 0
                        } else if str_eq(op.as_str(), ">=") {
                            c != 1
                        } else if str_eq(op.as_str(), "<=") {
                            c != 2
                        } else if str_eq(op.as_str(), ">") {
                            c == 2
                        } else if str_eq(op.as_str(), "<") {
                            c == 1
                        } else {
                            false
                        }
                    },
                    None => false,
                }
            } else if str_eqi(field.as_str(), "title") {
                if str_eq(op.as_str(), "=") {
                    str_eq(note.title.as_str(), value.as_str())
                } else if str_eq(op.as_str(), "!=") {
                    !str_eq(note.title.as_str(), value.as_str())
                } else {
                    false
                }
            } else {
                false
            }
        },
        Expr::And(l, r) => {
            proof {
                assert(sat(expr@, note@) == (sat((**l)@, note@) && sat((**r)@, note@)));
            }
            evaluate_expr(note, l) && evaluate_expr(note, r)
        },
        Expr::Or(l, r) => {
            proof {
                assert(sat(expr@, note@) == (sat((**l)@, note@) || sat((**r)@, note@)));
            }
            evaluate_expr(note, l) || evaluate_expr(note, r)
        },
        Expr::Not(sub) => {
            proof {
                assert(sat(expr@, note@) == !sat((**sub)@, note@));
            }
            !evaluate_expr(note, sub)
        },
    }
}

/// The `(path, title)` pairs of exactly the notes from position `i` on that
/// satisfy `e`, in corpus order.
pub open spec fn selected_from(e: ExprV, notes: Seq<NoteMetadata>, i: int) -> Seq<(String, String)>
    decreases notes.len() - i,
{
    if i < 0 || i >= notes.len() {
        Seq::empty()
    } else {
        let rest = selected_from(e, notes, i + 1);
        if sat(e, notes[i]@) {
            seq![(notes[i].path, notes[i].title)] + rest
        } else {
            rest
        }
    }
}

/// The `(path, title)` pairs of exactly the notes satisfying `e`, in corpus
/// order.
pub open spec fn selected(e: ExprV, notes: Seq<NoteMetadata>) -> Seq<(String, String)> {
    selected_from(e, notes, 0)
}

/// Relies on rayon's parallel iterators over a `Vec`: `filter` keeps exactly
/// the elements the predicate accepts, `map` projects each kept element, and
/// `collect` gathers them in their original order. The predicate itself is
/// the verified `evaluate_expr`.
#[verifier::external_body]
fn par_select(notes: Vec<NoteMetadata>, expr: &Expr) -> (r: Vec<(String, String)>)
    ensures
        r@ == selected(expr@, notes@),
{
    notes.into_par_iter().filter(|note| evaluate_expr(note, expr)).map(
        |note| (note.path, note.title),
    ).collect()
}

/// Runs a query over an in-memory corpus of note metadata, evaluating the
/// notes in parallel. Returns the `(path, title)` pair of every note the
/// query selects; fails exactly when the query text does not parse.
pub fn query_notes_native(notes: Vec<NoteMetadata>, query: &str) -> (r: Result<
    Vec<(String, String)>,
    ParseError,
>)
    ensures
        (match spec_parse_query(query@) {
            Ok(ev) => r matches Ok(v) && v@ == selected(ev, notes@),
            Err(pe) => r matches Err(q) && q == pe,
        }),
{
    let ast = match parse_query(query) {
        Ok(a) => a,
        Err(e) => {
            return Err(e);
        },
    };
    Ok(par_select(notes, &ast))
}

/// Native evaluation is a pure function of the syntax tree and the corpus
/// alone: evaluating the same query twice against an unchanged corpus yields
/// the same matches.
pub proof fn lemma_evaluation_deterministic(
    e: ExprV,
    notes: Seq<NoteMetadata>,
    m1: Seq<(String, String)>,
    m2: Seq<(String, String)>,
)
    requires
        m1 == selected(e, notes),
        m2 == selected(e, notes),
    ensures
        m1 == m2,
{
}

} // verus!
