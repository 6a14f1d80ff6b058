//! A verified model of the compiled-filter backend: what the jq filter text
//! emitted by `build_jq_expression` computes over one note's record, under
//! jq's published evaluation rules (null sorts before every string, strings
//! compare by code point, `select` keeps a record when its argument is
//! truthy, and `=` is an update-assignment whose object result is truthy).
//!
//! The model takes the syntax tree, not the emitted text: it assigns to each
//! tree the meaning jq gives the text compiled from it, assuming the emitted
//! text is a well-formed jq program — which holds when field names and values
//! contain no characters jq reads specially (see `jq_value_ok`). On that
//! common ground the equivalence law `lemma_backends_agree` relates this
//! backend to the native evaluator.

use vstd::prelude::*;

use crate::query_native::cond_sat;
use crate::query_native::date_sat;
use crate::query_native::sat;
use crate::query_native::selected;
use crate::query_native::selected_from;
use crate::query_native::NoteMetadata;
use crate::query_native::NoteV;
use crate::query_parser::Expr;
use crate::query_parser::ExprV;
use crate::text::eqi_seq;
use crate::text::lex_lt;

verus! {

broadcast use vstd::string::group_string_axioms;

/// The jq value a note record holds under one key: the records the pipeline
/// feeds to the filter carry exactly `path`, `title`, `tags`, and optionally
/// `date`; any other key reads as null. jq field access is case-sensitive.
pub enum JqVal {
    Null,
    Str(Seq<char>),
    Arr,
}

pub open spec fn jq_field(n: NoteV, field: Seq<char>) -> JqVal {
    if field == "path"@ {
        JqVal::Str(n.path)
    } else if field == "title"@ {
        JqVal::Str(n.title)
    } else if field == "date"@ {
        match n.date {
            Some(d) => JqVal::Str(d),
            None => JqVal::Null,
        }
    } else if field == "tags"@ {
        JqVal::Arr
    } else {
        JqVal::Null
    }
}

/// How jq evaluates `.field OP "value"` as a condition under `select`.
/// jq orders null below every string and every string below every array;
/// strings compare by code point. `=` is jq's update-assignment: it yields
/// the modified record, an object, which `select` treats as truthy. An
/// operator outside jq's grammar would keep the emitted program from running
/// at all; the model maps it to false.
pub open spec fn jq_cmp(x: JqVal, op: Seq<char>, lit: Seq<char>) -> bool {
    if op == "="@ {
        true
    } else if op == "=="@ {
        match x {
            JqVal::Null => false,
            JqVal::Str(s) => s == lit,
            JqVal::Arr => false,
        }
    } else if op == "!="@ {
        match x {
            JqVal::Null => true,
            JqVal::Str(s) => s != lit,
            JqVal::Arr => true,
        }
    } else if op == ">="@ {
        match x {
            JqVal::Null => false,
            JqVal::Str(s) => !lex_lt(s, lit),
            JqVal::Arr => true,
        }
    } else if op == "<="@ {
        match x {
            JqVal::Null => true,
            JqVal::Str(s) => !lex_lt(lit, s),
            JqVal::Arr => false,
        }
    } else if op == ">"@ {
        match x {
            JqVal::Null => false,
            JqVal::Str(s) => lex_lt(lit, s),
            JqVal::Arr => true,
        }
    } else if op == "<"@ {
        match x {
            JqVal::Null => true,
            JqVal::Str(s) => lex_lt(s, lit),
            JqVal::Arr => false,
        }
    } else {
        false
    }
}

/// Whether the compiled filter selects the note: membership in `.tags` for
/// the compiled tag forms, a direct field comparison otherwise, boolean
/// connectives for `And`/`Or`/`Not`, with the compiler's special case for a
/// negated `tag = v` condition.
pub open spec fn jq_sat(e: ExprV, n: NoteV) -> bool
    decreases e,
{
    match e {
        ExprV::Condition { field, op, value } => {
            if eqi_seq(field, "tag"@) && op == "="@ {
                n.tags.contains(value)
            } else if eqi_seq(field, "tag"@) && op == "!="@ {
                !n.tags.contains(value)
            } else {
                jq_cmp(jq_field(n, field), op, value)
            }
        },
        ExprV::And(l, r) => jq_sat(*l, n) && jq_sat(*r, n),
        ExprV::Or(l, r) => jq_sat(*l, n) || jq_sat(*r, n),
        ExprV::Not(sub) => match *sub {
            ExprV::Condition { field, op, value } => if eqi_seq(field, "tag"@) && op == "="@ {
                !n.tags.contains(value)
            } else {
                !jq_sat(*sub, n)
            },
            _ => !jq_sat(*sub, n),
        },
    }
}

/// The `(path, title)` pairs the compiled filter keeps from position `i` on.
pub open spec fn jq_selected_from(e: ExprV, notes: Seq<NoteMetadata>, i: int) -> Seq<
    (String, String),
>
    decreases notes.len() - i,
{
    if i < 0 || i >= notes.len() {
        Seq::empty()
    } else {
        let rest = jq_selected_from(e, notes, i + 1);
        if jq_sat(e, notes[i]@) {
            seq![(notes[i].path, notes[i].title)] + rest
        } else {
            rest
        }
    }
}

/// The `(path, title)` pairs the compiled filter keeps, in corpus order:
/// what `map(select(..)) | map({path: .path, title: .title})` emits.
pub open spec fn jq_selected(e: ExprV, notes: Seq<NoteMetadata>) -> Seq<(String, String)> {
    jq_selected_from(e, notes, 0)
}

/// A string that jq reads back unchanged from the double-quoted literal the
/// compiler embeds it in: no double quote, no backslash, no control
/// character.
pub open spec fn jq_value_ok(v: Seq<char>) -> bool {
    forall|k: int| 0 <= k < v.len() ==> v[k] != '"' && v[k] != '\\' && v[k] as u32 >= 32
}

/// The leaf conditions on which the two backends are known to coincide for
/// note `n`: `tag` with `=` or `!=`; `date` (written in lower case, as jq
/// reads keys case-sensitively) with `>=` or `>`, or with `<=`, `<` or `!=`
/// when the note has a date; and `title` with `!=`. Elsewhere they can
/// differ: jq turns `=` on a plain field into an assignment that selects
/// every record, and reads a missing date as null, which sorts below every
/// string.
pub open spec fn cond_agrees(field: Seq<char>, op: Seq<char>, value: Seq<char>, n: NoteV) -> bool {
    jq_value_ok(value) && if eqi_seq(field, "tag"@) {
        op == "="@ || op == "!="@
    } else if field == "date"@ {
        op == ">="@ || op == ">"@ || ((op == "<="@ || op == "<"@ || op == "!="@) && n.date is Some)
    } else if field == "title"@ {
        op == "!="@
    } else {
        false
    }
}

/// Whether every leaf of `e` lies in the fragment on which the backends
/// coincide for note `n`.
pub open spec fn agrees(e: ExprV, n: NoteV) -> bool
    decreases e,
{
    match e {
        ExprV::Condition { field, op, value } => cond_agrees(field, op, value, n),
        ExprV::And(l, r) => agrees(*l, n) && agrees(*r, n),
        ExprV::Or(l, r) => agrees(*l, n) && agrees(*r, n),
        ExprV::Not(sub) => agrees(*sub, n),
    }
}

/// Equivalence law, per note: on the agreed fragment, the compiled filter
/// selects a note exactly when the native evaluator does.
pub proof fn lemma_backends_agree(e: ExprV, n: NoteV)
    requires
        agrees(e, n),
    ensures
        jq_sat(e, n) == sat(e, n),
    decreases e,
{
    reveal_strlit("tag");
    reveal_strlit("date");
    reveal_strlit("title");
    reveal_strlit("path");
    reveal_strlit("tags");
    reveal_strlit("=");
    reveal_strlit("==");
    reveal_strlit("!=");
    reveal_strlit(">=");
    reveal_strlit("<=");
    reveal_strlit(">");
    reveal_strlit("<");
    assert("tag"@.len() == 3 && "date"@.len() == 4 && "title"@.len() == 5 && "path"@.len() == 4
        && "tags"@.len() == 4);
    assert("date"@[0] == 'd' && "path"@[0] == 'p' && "title"@[0] == 't' && "tags"@[0] == 't');
    assert("tags"@[3] == 's');
    assert("="@.len() == 1 && "=="@.len() == 2 && "!="@.len() == 2 && ">="@.len() == 2
        && "<="@.len() == 2 && ">"@.len() == 1 && "<"@.len() == 1);
    assert("="@[0] == '=' && ">"@[0] == '>' && "<"@[0] == '<');
    assert("=="@[0] == '=' && "!="@[0] == '!' && ">="@[0] == '>' && "<="@[0] == '<');
    match e {
        ExprV::Condition { field, op, value } => {
            assert(sat(e, n) == cond_sat(field, op, value, n));
            if eqi_seq(field, "tag"@) {
                if op == "="@ {
                    assert(jq_sat(e, n) == n.tags.contains(value));
                    assert(cond_sat(field, op, value, n) == n.tags.contains(value));
                } else {
                    assert(op == "!="@);
                    assert(jq_sat(e, n) == !n.tags.contains(value));
                    assert(cond_sat(field, op, value, n) == !n.tags.contains(value));
                }
            } else if field == "date"@ {
                assert(eqi_seq(field, "date"@));
                assert(jq_sat(e, n) == jq_cmp(jq_field(n, field), op, value));
                match n.date {
                    Some(d) => {
                        assert(jq_field(n, field) == JqVal::Str(d));
                        assert(cond_sat(field, op, value, n) == date_sat(d, op, value));
                    },
                    None => {
                        assert(jq_field(n, field) == JqVal::Null);
                        assert(op == ">="@ || op == ">"@);
                        assert(!jq_cmp(JqVal::Null, op, value));
                        assert(!cond_sat(field, op, value, n));
                    },
                }
            } else {
                assert(field == "title"@ && op == "!="@);
                assert(eqi_seq(field, "title"@));
                assert(!eqi_seq(field, "date"@));
                assert(jq_sat(e, n) == jq_cmp(JqVal::Str(n.title), op, value));
                assert(jq_cmp(JqVal::Str(n.title), op, value) == (n.title != value));
                assert(cond_sat(field, op, value, n) == (n.title != value));
            }
        },
        ExprV::And(l, r) => {
            lemma_backends_agree(*l, n);
            lemma_backends_agree(*r, n);
        },
        ExprV::Or(l, r) => {
            lemma_backends_agree(*l, n);
            lemma_backends_agree(*r, n);
        },
        ExprV::Not(sub) => {
            lemma_backends_agree(*sub, n);
        },
    }
}

proof fn lemma_backends_agree_from(e: ExprV, notes: Seq<NoteMetadata>, i: int)
    requires
        forall|k: int| 0 <= k < notes.len() ==> agrees(e, #[trigger] notes[k]@),
    ensures
        jq_selected_from(e, notes, i) == selected_from(e, notes, i),
    decreases notes.len() - i,
{
    if 0 <= i < notes.len() {
        lemma_backends_agree(e, notes[i]@);
        lemma_backends_agree_from(e, notes, i + 1);
    }
}

/// Equivalence law, per corpus: on the agreed fragment, both backends return
/// the same `(path, title)` pairs for the same corpus and query.
pub proof fn lemma_backends_agree_on_corpus(e: ExprV, notes: Seq<NoteMetadata>)
    requires
        forall|k: int| 0 <= k < notes.len() ==> agrees(e, #[trigger] notes[k]@),
    ensures
        jq_selected(e, notes) == selected(e, notes),
{
    lemma_backends_agree_from(e, notes, 0);
}

/// Empty-corpus law: against zero notes, both backends select nothing.
pub proof fn lemma_empty_corpus(e: ExprV)
    ensures
        selected(e, Seq::<NoteMetadata>::empty()) == Seq::<(String, String)>::empty(),
        jq_selected(e, Seq::<NoteMetadata>::empty()) == Seq::<(String, String)>::empty(),
{
}

/// Evaluates, on one note's metadata, the modeled meaning of the filter
/// compiled from `expr`.
pub fn jq_matches(note: &NoteMetadata, expr: &Expr) -> (r: bool)
    ensures
        r == jq_sat(expr@, note@),
    decreases expr,
{
    match expr {
        Expr::Condition { field, op, value } => {
            proof {
                assert(jq_sat(expr@, note@) == jq_sat(
                    ExprV::Condition { field: field@, op: op@, value: value@ },
                    note@,
                ));
            }
            jq_matches_condition(note, field, op, value)
        },
        Expr::And(l, r) => {
            proof {
                assert(jq_sat(expr@, note@) == (jq_sat((**l)@, note@) && jq_sat((**r)@, note@)));
            }
            jq_matches(note, l) && jq_matches(note, r)
        },
        Expr::Or(l, r) => {
            proof {
                assert(jq_sat(expr@, note@) == (jq_sat((**l)@, note@) || jq_sat((**r)@, note@)));
            }
            jq_matches(note, l) || jq_matches(note, r)
        },
        Expr::Not(sub) => {
            match &**sub {
                Expr::Condition { field, op, value } => {
                    proof {
                        assert((**sub)@ == (ExprV::Condition {
                            field: field@,
                            op: op@,
                            value: value@,
                        }));
                    }
                    if crate::text::str_eqi(field.as_str(), "tag") && crate::text::str_eq(
                        op.as_str(),
                        "=",
                    ) {
                        proof {
                            assert(jq_sat(expr@, note@) == !note@.tags.contains(value@));
                        }
                        !has_tag_model(note, value)
                    } else {
                        proof {
                            assert(jq_sat(expr@, note@) == !jq_sat((**sub)@, note@));
                        }
                        !jq_matches(note, sub)
                    }
                },
                _ => {
                    proof {
                        assert(!((**sub)@ is Condition));
                        assert(jq_sat(expr@, note@) == !jq_sat((**sub)@, note@));
                    }
                    !jq_matches(note, sub)
                },
            }
        },
    }
}

fn has_tag_model(note: &NoteMetadata, value: &String) -> (r: bool)
    ensures
        r == note@.tags.contains(value@),
{
    let mut k: usize = 0;
    while k < note.tags.len()
        invariant
            k <= note.tags@.len(),
            forall|j: int| 0 <= j < k ==> note.tags@[j]@ != value@,
        decreases note.tags@.len() - k,
    {
        if crate::text::str_eq(note.tags[k].as_str(), value.as_str()) {
            assert(note@.tags[k as int] == value@);
            return true;
        }
        k = k + 1;
    }
    assert(!note@.tags.contains(value@)) by {
        if note@.tags.contains(value@) {
            let j = choose|j: int| 0 <= j < note@.tags.len() && note@.tags[j] == value@;
            assert(note.tags@[j]@ == value@);
        }
    };
    false
}

fn jq_matches_condition(note: &NoteMetadata, field: &String, op: &String, value: &String) -> (r:
    bool)
    ensures
        r == jq_sat(ExprV::Condition { field: field@, op: op@, value: value@ }, note@),
{
    let tag_field = crate::text::str_eqi(field.as_str(), "tag");
    if tag_field && crate::text::str_eq(op.as_str(), "=") {
        has_tag_model(note, value)
    } else if tag_field && crate::text::str_eq(op.as_str(), "!=") {
        !has_tag_model(note, value)
    } else {
        let x = jq_field_exec(note, field);
        jq_cmp_exec(&x, op, value)
    }
}

/// The jq value of `.field` on the note's record, executably.
enum JqValExec {
    Null,
    Str(String),
    Arr,
}

impl JqValExec {
    spec fn models(&self) -> JqVal {
        match self {
            JqValExec::Null => JqVal::Null,
            JqValExec::Str(s) => JqVal::Str(s@),
            JqValExec::Arr => JqVal::Arr,
        }
    }
}

fn jq_field_exec(note: &NoteMetadata, field: &String) -> (r: JqValExec)
    ensures
        r.models() == jq_field(note@, field@),
{
    if crate::text::str_eq(field.as_str(), "path") {
        JqValExec::Str(note.path.clone())
    } else if crate::text::str_eq(field.as_str(), "title") {
        JqValExec::Str(note.title.clone())
    } else if crate::text::str_eq(field.as_str(), "date") {
        match &note.date {
            Some(d) => JqValExec::Str(d.clone()),
            None => JqValExec::Null,
        }
    } else if crate::text::str_eq(field.as_str(), "tags") {
        JqValExec::Arr
    } else {
        JqValExec::Null
    }
}

fn jq_cmp_exec(x: &JqValExec, op: &String, lit: &String) -> (r: bool)
    ensures
        r == jq_cmp(x.models(), op@, lit@),
{
    if crate::text::str_eq(op.as_str(), "=") {
        true
    } else if crate::text::str_eq(op.as_str(), "==") {
        match x {
            JqValExec::Str(s) => crate::text::str_eq(s.as_str(), lit.as_str()),
            _ => false,
        }
    } else if crate::text::str_eq(op.as_str(), "!=") {
        match x {
            JqValExec::Str(s) => !crate::text::str_eq(s.as_str(), lit.as_str()),
            _ => true,
        }
    } else if crate::text::str_eq(op.as_str(), ">=") {
        match x {
            JqValExec::Null => false,
            JqValExec::Str(s) => crate::text::lex_cmp(s.as_str(), lit.as_str()) != 1,
            JqValExec::Arr => true,
        }
    } else if crate::text::str_eq(op.as_str(), "<=") {
        match x {
            JqValExec::Null => true,
            JqValExec::Str(s) => crate::text::lex_cmp(s.as_str(), lit.as_str()) != 2,
            JqValExec::Arr => false,
        }
    } else if crate::text::str_eq(op.as_str(), ">") {
        match x {
            JqValExec::Null => false,
            JqValExec::Str(s) => crate::text::lex_cmp(s.as_str(), lit.as_str()) == 2,
            JqValExec::Arr => true,
        }
    } else if crate::text::str_eq(op.as_str(), "<") {
        match x {
            JqValExec::Null => true,
            JqValExec::Str(s) => crate::text::lex_cmp(s.as_str(), lit.as_str()) == 1,
            JqValExec::Arr => false,
        }
    } else {
        false
    }
}

/// Runs the modeled compiled filter over an in-memory corpus: the
/// `(path, title)` pair of every record the filter keeps, in corpus order.
pub fn jq_select(notes: &Vec<NoteMetadata>, expr: &Expr) -> (r: Vec<(String, String)>)
    ensures
        r@ == jq_selected(expr@, notes@),
{
    let mut r: Vec<(String, String)> = Vec::new();
    let mut i: usize = 0;
    while i < notes.len()
        invariant
            i <= notes@.len(),
            jq_selected(expr@, notes@) == r@ + jq_selected_from(expr@, notes@, i as int),
        decreases notes@.len() - i,
    {
        let ghost before = r@;
        if jq_matches(&notes[i], expr) {
            r.push((notes[i].path.clone(), notes[i].title.clone()));
            proof {
                assert(jq_selected_from(expr@, notes@, i as int) == seq![
                    (notes@[i as int].path, notes@[i as int].title),
                ] + jq_selected_from(expr@, notes@, i + 1));
                assert(r@ == before.push((notes@[i as int].path, notes@[i as int].title)));
                assert(before + (seq![(notes@[i as int].path, notes@[i as int].title)]
                    + jq_selected_from(expr@, notes@, i + 1)) =~= r@ + jq_selected_from(
                    expr@,
                    notes@,
                    i + 1,
                ));
            }
        } else {
            proof {
                assert(jq_selected_from(expr@, notes@, i as int) == jq_selected_from(
                    expr@,
                    notes@,
                    i + 1,
                ));
            }
        }
        i = i + 1;
    }
    proof {
        assert(jq_selected_from(expr@, notes@, notes@.len() as int) =~= Seq::<
            (String, String),
        >::empty());
        assert(r@ + Seq::<(String, String)>::empty() =~= r@);
    }
    r
}

} // verus!
