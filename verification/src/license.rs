//! The license normalization pipeline: choose one identifier per license
//! entry, decompose composite expressions and semicolon lists into atomic
//! tokens, and join the tokens back for the chosen output target.

use crate::schema::{Artifact, CsvRecord, OutputMode, SyftLicense};
use crate::text::{
    contains_char, contains_sub, has_sub, join_strings, join_with, seq_views, split_delim, split_on,
    str_eq, trim, trim_spec, Delim,
};
use vstd::prelude::*;

verus! {

/// The sentinel for "no usable license information".
pub open spec fn none_str() -> Seq<char> {
    seq!['N', 'o', 'n', 'e']
}

/// The placeholder for an absent name, version or type.
pub open spec fn unknown_str() -> Seq<char> {
    seq!['U', 'n', 'k', 'n', 'o', 'w', 'n']
}

/// The space-delimited SPDX operator infixes whose presence marks a line as
/// a boolean expression.
pub open spec fn and_infix() -> Seq<char> {
    seq![' ', 'A', 'N', 'D', ' ']
}

pub open spec fn or_infix() -> Seq<char> {
    seq![' ', 'O', 'R', ' ']
}

pub open spec fn with_infix() -> Seq<char> {
    seq![' ', 'W', 'I', 'T', 'H', ' ']
}

pub proof fn lemma_sentinel_lits()
    ensures
        "None"@ == none_str(),
        "Unknown"@ == unknown_str(),
        " AND "@ == and_infix(),
        " OR "@ == or_infix(),
        " WITH "@ == with_infix(),
{
    reveal_strlit("None");
    reveal_strlit("Unknown");
    reveal_strlit(" AND ");
    reveal_strlit(" OR ");
    reveal_strlit(" WITH ");
    assert("None"@ =~= none_str());
    assert("Unknown"@ =~= unknown_str());
    assert(" AND "@ =~= and_infix());
    assert(" OR "@ =~= or_infix());
    assert(" WITH "@ =~= with_infix());
}

// ---------------------------------------------------------------------------
// License Extractor
// ---------------------------------------------------------------------------
/// The trimmed string, unless it is blank.
pub open spec fn blank_to_none(s: Seq<char>) -> Option<Seq<char>> {
    if trim_spec(s).len() > 0 {
        Some(trim_spec(s))
    } else {
        None
    }
}

pub open spec fn value_candidate(value: Option<String>) -> Option<Seq<char>> {
    match value {
        Some(v) => blank_to_none(v@),
        None => None,
    }
}

/// The identifier an entry contributes: a bare entry contributes its text;
/// a structured entry prefers a non-blank SPDX expression over a non-blank
/// free-form value; a blank entry contributes nothing.
pub open spec fn entry_candidate(e: SyftLicense) -> Option<Seq<char>> {
    match e {
        SyftLicense::Simple(s) => blank_to_none(s@),
        SyftLicense::Detailed { value, spdx_expression, license_type: _ } => {
            match spdx_expression {
                Some(x) => if trim_spec(x@).len() > 0 {
                    Some(trim_spec(x@))
                } else {
                    value_candidate(value)
                },
                None => value_candidate(value),
            }
        },
    }
}

/// The candidate as a sequence of zero or one tokens.
pub open spec fn cand_seq(e: SyftLicense) -> Seq<Seq<char>> {
    match entry_candidate(e) {
        Some(c) => seq![c],
        None => Seq::empty(),
    }
}

/// All surviving candidates of an entry list, in order.
pub open spec fn candidates_of(es: Seq<SyftLicense>) -> Seq<Seq<char>>
    decreases es.len(),
{
    if es.len() == 0 {
        Seq::empty()
    } else {
        cand_seq(es[0]) + candidates_of(es.subrange(1, es.len() as int))
    }
}

pub proof fn lemma_candidates_push(es: Seq<SyftLicense>, e: SyftLicense)
    ensures
        candidates_of(es.push(e)) == candidates_of(es) + cand_seq(e),
    decreases es.len(),
{
    if es.len() == 0 {
        assert(es.push(e)[0] == e);
        assert(es.push(e).subrange(1, 1) =~= Seq::<SyftLicense>::empty());
        assert(candidates_of(es.push(e)) == cand_seq(e) + candidates_of(
            Seq::<SyftLicense>::empty(),
        ));
        assert(cand_seq(e) + Seq::<Seq<char>>::empty() =~= cand_seq(e));
        assert(candidates_of(es) + cand_seq(e) =~= cand_seq(e));
    } else {
        let rest = es.subrange(1, es.len() as int);
        lemma_candidates_push(rest, e);
        assert(es.push(e).subrange(1, es.len() as int + 1) =~= rest.push(e));
        assert(es.push(e)[0] == es[0]);
        assert(cand_seq(es[0]) + (candidates_of(rest) + cand_seq(e)) =~= (cand_seq(es[0])
            + candidates_of(rest)) + cand_seq(e));
    }
}

pub open spec fn license_field_view(o: Option<Vec<SyftLicense>>) -> Option<Seq<SyftLicense>> {
    match o {
        Some(v) => Some(v@),
        None => None,
    }
}

/// The Normalized License Line of an artifact's license field: "None" when
/// the field is absent or nothing survives, else the candidates joined with
/// a newline.
pub open spec fn extracted_line(o: Option<Seq<SyftLicense>>) -> Seq<char> {
    match o {
        None => none_str(),
        Some(es) => {
            let cs = candidates_of(es);
            if cs.len() == 0 {
                none_str()
            } else {
                join_with(cs, seq!['\n'])
            }
        },
    }
}

fn trimmed_nonblank(s: &str) -> (r: Option<String>)
    ensures
        (match r {
            Some(t) => blank_to_none(s@) == Some(t@),
            None => blank_to_none(s@) is None,
        }),
{
    let t = trim(s);
    if t.unicode_len() == 0 {
        None
    } else {
        Some(t.to_owned())
    }
}

fn value_candidate_exec(value: &Option<String>) -> (r: Option<String>)
    ensures
        (match r {
            Some(t) => value_candidate(*value) == Some(t@),
            None => value_candidate(*value) is None,
        }),
{
    match value {
        Some(v) => trimmed_nonblank(v.as_str()),
        None => None,
    }
}

fn entry_candidate_exec(e: &SyftLicense) -> (r: Option<String>)
    ensures
        (match r {
            Some(t) => entry_candidate(*e) == Some(t@),
            None => entry_candidate(*e) is None,
        }),
{
    match e {
        SyftLicense::Simple(s) => trimmed_nonblank(s.as_str()),
        SyftLicense::Detailed { value, spdx_expression, license_type: _ } => {
            match spdx_expression {
                Some(x) => {
                    let t = trimmed_nonblank(x.as_str());
                    match t {
                        Some(ts) => Some(ts),
                        None => value_candidate_exec(value),
                    }
                },
                None => value_candidate_exec(value),
            }
        },
    }
}

/// Produce the Normalized License Line for an artifact's license field:
/// one chosen identifier per usable entry, newline-joined, or "None".
pub fn extract_syft_license_info(licenses: &Option<Vec<SyftLicense>>) -> (r: String)
    ensures
        r@ == extracted_line(license_field_view(*licenses)),
{
    match licenses {
        None => {
            let r = String::from_str("None");
            proof {
                lemma_sentinel_lits();
            }
            r
        },
        Some(v) => {
            let mut cands: Vec<String> = Vec::new();
            let mut i: usize = 0;
            while i < v.len()
                invariant
                    0 <= i <= v@.len(),
                    seq_views(cands@) == candidates_of(v@.subrange(0, i as int)),
                decreases v@.len() - i,
            {
                let ghost prefix = v@.subrange(0, i as int);
                let ghost old_views = seq_views(cands@);
                let c_opt = entry_candidate_exec(&v[i]);
                match c_opt {
                    Some(c) => {
                        let ghost cv = c@;
                        cands.push(c);
                        proof {
                            assert(seq_views(cands@) =~= old_views + seq![cv]);
                        }
                    },
                    None => {},
                }
                proof {
                    lemma_candidates_push(prefix, v@[i as int]);
                    assert(prefix.push(v@[i as int]) =~= v@.subrange(0, i + 1));
                    if entry_candidate(v@[i as int]) is None {
                        assert(seq_views(cands@) =~= old_views + cand_seq(v@[i as int]));
                    }
                }
                i = i + 1;
            }
            proof {
                assert(v@.subrange(0, v@.len() as int) =~= v@);
            }
            if cands.len() == 0 {
                let r = String::from_str("None");
                proof {
                    lemma_sentinel_lits();
                }
                r
            } else {
                let r = join_strings(&cands, "\n");
                proof {
                    reveal_strlit("\n");
                    assert("\n"@ =~= seq!['\n']);
                }
                r
            }
        },
    }
}

// ---------------------------------------------------------------------------
// Expression Splitter
// ---------------------------------------------------------------------------
/// A token that is, up to ASCII case, one of the SPDX operators AND, OR, WITH.
pub open spec fn ci_eq(t: Seq<char>, up: Seq<char>, lo: Seq<char>) -> bool {
    t.len() == up.len() && (forall|i: int| 0 <= i < t.len() ==> #[trigger] t[i] == up[i] || t[i]
        == lo[i])
}

pub open spec fn is_operator_token(t: Seq<char>) -> bool {
    ||| ci_eq(t, seq!['A', 'N', 'D'], seq!['a', 'n', 'd'])
    ||| ci_eq(t, seq!['O', 'R'], seq!['o', 'r'])
    ||| ci_eq(t, seq!['W', 'I', 'T', 'H'], seq!['w', 'i', 't', 'h'])
}

/// Case-insensitive test for the three SPDX operators.
fn is_operator(s: &str) -> (b: bool)
    ensures
        b == is_operator_token(s@),
{
    let n = s.unicode_len();
    if n == 3 {
        let r = (s.get_char(0) == 'A' || s.get_char(0) == 'a') && (s.get_char(1) == 'N'
            || s.get_char(1) == 'n') && (s.get_char(2) == 'D' || s.get_char(2) == 'd');
        proof {
            if r {
                assert forall|i: int| 0 <= i < s@.len() implies #[trigger] s@[i] == seq![
                    'A',
                    'N',
                    'D',
                ][i] || s@[i] == seq!['a', 'n', 'd'][i] by {
                    if i == 0 {
                    } else if i == 1 {
                    } else {
                    }
                }
                assert(ci_eq(s@, seq!['A', 'N', 'D'], seq!['a', 'n', 'd']));
            } else {
                if ci_eq(s@, seq!['A', 'N', 'D'], seq!['a', 'n', 'd']) {
                    assert(s@[0] == 'A' || s@[0] == 'a');
                    assert(s@[1] == 'N' || s@[1] == 'n');
                    assert(s@[2] == 'D' || s@[2] == 'd');
                }
            }
        }
        r
    } else if n == 2 {
        let r = (s.get_char(0) == 'O' || s.get_char(0) == 'o') && (s.get_char(1) == 'R'
            || s.get_char(1) == 'r');
        proof {
            if r {
                assert forall|i: int| 0 <= i < s@.len() implies #[trigger] s@[i] == seq!['O', 'R'][i]
                    || s@[i] == seq!['o', 'r'][i] by {
                    if i == 0 {
                    } else {
                    }
                }
                assert(ci_eq(s@, seq!['O', 'R'], seq!['o', 'r']));
            } else {
                if ci_eq(s@, seq!['O', 'R'], seq!['o', 'r']) {
                    assert(s@[0] == 'O' || s@[0] == 'o');
                    assert(s@[1] == 'R' || s@[1] == 'r');
                }
            }
        }
        r
    } else if n == 4 {
        let r = (s.get_char(0) == 'W' || s.get_char(0) == 'w') && (s.get_char(1) == 'I'
            || s.get_char(1) == 'i') && (s.get_char(2) == 'T' || s.get_char(2) == 't') && (
        s.get_char(3) == 'H' || s.get_char(3) == 'h');
        proof {
            if r {
                assert forall|i: int| 0 <= i < s@.len() implies #[trigger] s@[i] == seq![
                    'W',
                    'I',
                    'T',
                    'H',
                ][i] || s@[i] == seq!['w', 'i', 't', 'h'][i] by {
                    if i == 0 {
                    } else if i == 1 {
                    } else if i == 2 {
                    } else {
                    }
                }
                assert(ci_eq(s@, seq!['W', 'I', 'T', 'H'], seq!['w', 'i', 't', 'h']));
            } else {
                if ci_eq(s@, seq!['W', 'I', 'T', 'H'], seq!['w', 'i', 't', 'h']) {
                    assert(s@[0] == 'W' || s@[0] == 'w');
                    assert(s@[1] == 'I' || s@[1] == 'i');
                    assert(s@[2] == 'T' || s@[2] == 't');
                    assert(s@[3] == 'H' || s@[3] == 'h');
                }
            }
        }
        r
    } else {
        false
    }
}

/// Trim every piece, drop blank pieces, and, when asked, drop the SPDX
/// operator words.
pub open spec fn cleaned(parts: Seq<Seq<char>>, drop_ops: bool) -> Seq<Seq<char>>
    decreases parts.len(),
{
    if parts.len() == 0 {
        Seq::empty()
    } else {
        let t = trim_spec(parts[0]);
        let rest = cleaned(parts.subrange(1, parts.len() as int), drop_ops);
        if t.len() == 0 || (drop_ops && is_operator_token(t)) {
            rest
        } else {
            seq![t] + rest
        }
    }
}

/// What splitting an SPDX boolean expression yields: the pieces between
/// spaces and parentheses, the operator words removed.
pub open spec fn expr_tokens(s: Seq<char>) -> Seq<Seq<char>> {
    cleaned(split_delim(s, Delim::Expr), true)
}

/// What splitting a semicolon-separated list yields.
pub open spec fn semi_tokens(s: Seq<char>) -> Seq<Seq<char>> {
    cleaned(split_delim(s, Delim::Semicolon), false)
}

fn clean_split(s: &str, d: Delim, drop_ops: bool) -> (r: Vec<String>)
    ensures
        seq_views(r@) == cleaned(split_delim(s@, d), drop_ops),
{
    let parts = split_on(s, d);
    let ghost views = seq_views(parts@);
    let mut out: Vec<String> = Vec::new();
    let mut i: usize = 0;
    proof {
        assert(views.subrange(0, views.len() as int) =~= views);
        assert(seq_views(out@) =~= Seq::<Seq<char>>::empty());
        assert(Seq::<Seq<char>>::empty() + cleaned(views, drop_ops) =~= cleaned(views, drop_ops));
    }
    while i < parts.len()
        invariant
            0 <= i <= parts@.len(),
            views == seq_views(parts@),
            views.len() == parts@.len(),
            seq_views(out@) + cleaned(views.subrange(i as int, views.len() as int), drop_ops)
                == cleaned(views, drop_ops),
        decreases parts@.len() - i,
    {
        let ghost old_views = seq_views(out@);
        let t = trim(parts[i].as_str());
        let keep = if t.unicode_len() == 0 {
            false
        } else if drop_ops {
            !is_operator(t)
        } else {
            true
        };
        if keep {
            let tw = t.to_owned();
            let ghost tv = tw@;
            out.push(tw);
            proof {
                assert(seq_views(out@) =~= old_views + seq![tv]);
            }
        }
        proof {
            let suffix = views.subrange(i as int, views.len() as int);
            assert(suffix[0] == views[i as int]);
            assert(suffix.subrange(1, suffix.len() as int) =~= views.subrange(
                i + 1,
                views.len() as int,
            ));
            if keep {
                assert((old_views + seq![trim_spec(views[i as int])]) + cleaned(
                    views.subrange(i + 1, views.len() as int),
                    drop_ops,
                ) =~= old_views + (seq![trim_spec(views[i as int])] + cleaned(
                    views.subrange(i + 1, views.len() as int),
                    drop_ops,
                )));
            }
        }
        i = i + 1;
    }
    proof {
        assert(views.subrange(i as int, views.len() as int) =~= views.subrange(
            views.len() as int,
            views.len() as int,
        ));
        assert(views.subrange(views.len() as int, views.len() as int).len() == 0);
        assert(seq_views(out@) + Seq::<Seq<char>>::empty() =~= seq_views(out@));
    }
    out
}

/// Split one SPDX boolean expression into its license identifiers: spaces
/// and parentheses separate, the operator words AND, OR and WITH (in any
/// ASCII case) are discarded, and every surviving piece is trimmed.
pub fn split_license_expression(license_expr: &str) -> (r: Vec<String>)
    ensures
        seq_views(r@) == expr_tokens(license_expr@),
{
    clean_split(license_expr, Delim::Expr, true)
}

/// What one line of a Normalized License Line contributes: nothing when
/// blank or the "None" sentinel; an SPDX expression's identifiers when a
/// space-delimited operator occurs; the semicolon-separated parts when a
/// semicolon occurs; else the line itself, trimmed, as one token.
pub open spec fn line_tokens(line: Seq<char>) -> Seq<Seq<char>> {
    let t = trim_spec(line);
    if t.len() == 0 || t == none_str() {
        Seq::empty()
    } else if has_sub(t, and_infix()) || has_sub(t, or_infix()) || has_sub(t, with_infix()) {
        expr_tokens(t)
    } else if t.contains(';') {
        semi_tokens(t)
    } else {
        seq![t]
    }
}

/// Decompose one license line into its Atomic License Tokens.
pub fn split_license_line(line: &str) -> (r: Vec<String>)
    ensures
        seq_views(r@) == line_tokens(line@),
{
    proof {
        lemma_sentinel_lits();
    }
    let t = trim(line);
    if t.unicode_len() == 0 || str_eq(t, "None") {
        let r: Vec<String> = Vec::new();
        proof {
            assert(seq_views(r@) =~= line_tokens(line@));
        }
        r
    } else if contains_sub(t, " AND ") || contains_sub(t, " OR ") || contains_sub(t, " WITH ") {
        split_license_expression(t)
    } else if contains_char(t, ';') {
        clean_split(t, Delim::Semicolon, false)
    } else {
        let mut r: Vec<String> = Vec::new();
        r.push(t.to_owned());
        proof {
            assert(seq_views(r@) =~= line_tokens(line@));
        }
        r
    }
}

// ---------------------------------------------------------------------------
// Token collection per artifact
// ---------------------------------------------------------------------------
/// The final filter: a token survives when it is non-empty and is not the
/// "None" sentinel.
pub open spec fn keep_token(t: Seq<char>) -> bool {
    t.len() > 0 && t != none_str()
}

pub open spec fn drop_none_tokens(ts: Seq<Seq<char>>) -> Seq<Seq<char>>
    decreases ts.len(),
{
    if ts.len() == 0 {
        Seq::empty()
    } else {
        let rest = drop_none_tokens(ts.subrange(1, ts.len() as int));
        if keep_token(ts[0]) {
            seq![ts[0]] + rest
        } else {
            rest
        }
    }
}

pub open spec fn tokens_of_lines(lines: Seq<Seq<char>>) -> Seq<Seq<char>>
    decreases lines.len(),
{
    if lines.len() == 0 {
        Seq::empty()
    } else {
        drop_none_tokens(line_tokens(lines[0])) + tokens_of_lines(
            lines.subrange(1, lines.len() as int),
        )
    }
}

/// All Atomic License Tokens of a Normalized License Line: each newline-split
/// line decomposed, with empty and "None" tokens removed.
pub open spec fn normalized_tokens(s: Seq<char>) -> Seq<Seq<char>> {
    tokens_of_lines(split_delim(s, Delim::Newline))
}

/// The tokens of an artifact's license field.
pub open spec fn artifact_tokens(o: Option<Seq<SyftLicense>>) -> Seq<Seq<char>> {
    normalized_tokens(extracted_line(o))
}

fn push_kept(out: &mut Vec<String>, toks: &Vec<String>)
    ensures
        seq_views(final(out)@) == seq_views(old(out)@) + drop_none_tokens(seq_views(toks@)),
{
    let ghost tviews = seq_views(toks@);
    let mut j: usize = 0;
    proof {
        assert(tviews.subrange(0, tviews.len() as int) =~= tviews);
    }
    while j < toks.len()
        invariant
            0 <= j <= toks@.len(),
            tviews == seq_views(toks@),
            tviews.len() == toks@.len(),
            seq_views(out@) + drop_none_tokens(tviews.subrange(j as int, tviews.len() as int))
                == seq_views(old(out)@) + drop_none_tokens(tviews),
        decreases toks@.len() - j,
    {
        let ghost old_views = seq_views(out@);
        let tk = &toks[j];
        let keep = if tk.as_str().unicode_len() == 0 {
            false
        } else {
            !str_eq(tk.as_str(), "None")
        };
        proof {
            lemma_sentinel_lits();
        }
        if keep {
            out.push(tk.clone());
            proof {
                assert(seq_views(out@) =~= old_views + seq![tviews[j as int]]);
            }
        }
        proof {
            let suffix = tviews.subrange(j as int, tviews.len() as int);
            assert(suffix[0] == tviews[j as int]);
            assert(suffix.subrange(1, suffix.len() as int) =~= tviews.subrange(
                j + 1,
                tviews.len() as int,
            ));
            if keep {
                assert((old_views + seq![tviews[j as int]]) + drop_none_tokens(
                    tviews.subrange(j + 1, tviews.len() as int),
                ) =~= old_views + (seq![tviews[j as int]] + drop_none_tokens(
                    tviews.subrange(j + 1, tviews.len() as int),
                )));
            }
        }
        j = j + 1;
    }
    proof {
        assert(tviews.subrange(tviews.len() as int, tviews.len() as int).len() == 0);
        assert(seq_views(out@) + Seq::<Seq<char>>::empty() =~= seq_views(out@));
    }
}

/// Produce every Atomic License Token of an artifact's license field, in
/// order: extraction, newline splitting, per-line decomposition, and the
/// final filter against empty and "None" tokens.
pub fn collect_license_tokens(licenses: &Option<Vec<SyftLicense>>) -> (r: Vec<String>)
    ensures
        seq_views(r@) == artifact_tokens(license_field_view(*licenses)),
{
    let raw = extract_syft_license_info(licenses);
    let lines = split_on(raw.as_str(), Delim::Newline);
    let ghost lviews = seq_views(lines@);
    let mut out: Vec<String> = Vec::new();
    let mut i: usize = 0;
    proof {
        assert(lviews.subrange(0, lviews.len() as int) =~= lviews);
        assert(seq_views(out@) =~= Seq::<Seq<char>>::empty());
        assert(Seq::<Seq<char>>::empty() + tokens_of_lines(lviews) =~= tokens_of_lines(lviews));
    }
    while i < lines.len()
        invariant
            0 <= i <= lines@.len(),
            lviews == seq_views(lines@),
            lviews.len() == lines@.len(),
            seq_views(out@) + tokens_of_lines(lviews.subrange(i as int, lviews.len() as int))
                == tokens_of_lines(lviews),
        decreases lines@.len() - i,
    {
        let ghost old_views = seq_views(out@);
        let toks = split_license_line(lines[i].as_str());
        push_kept(&mut out, &toks);
        proof {
            let suffix = lviews.subrange(i as int, lviews.len() as int);
            assert(suffix[0] == lviews[i as int]);
            assert(suffix.subrange(1, suffix.len() as int) =~= lviews.subrange(
                i + 1,
                lviews.len() as int,
            ));
            assert((old_views + drop_none_tokens(line_tokens(lviews[i as int])))
                + tokens_of_lines(lviews.subrange(i + 1, lviews.len() as int)) =~= old_views + (
            drop_none_tokens(line_tokens(lviews[i as int])) + tokens_of_lines(
                lviews.subrange(i + 1, lviews.len() as int),
            )));
        }
        i = i + 1;
    }
    proof {
        assert(lviews.subrange(lviews.len() as int, lviews.len() as int).len() == 0);
        assert(seq_views(out@) + Seq::<Seq<char>>::empty() =~= seq_views(out@));
    }
    out
}

// ---------------------------------------------------------------------------
// Record Assembler
// ---------------------------------------------------------------------------
/// The separator each output mode joins tokens with: a newline in a table
/// cell, "; " in a CSV cell.
pub open spec fn mode_sep(mode: OutputMode) -> Seq<char> {
    match mode {
        OutputMode::Table => seq!['\n'],
        OutputMode::Csv => seq![';', ' '],
    }
}

/// The licenses cell: "None" when no token survived, else the tokens joined
/// with the mode's separator.
pub open spec fn joined_tokens(ts: Seq<Seq<char>>, mode: OutputMode) -> Seq<char> {
    if ts.len() == 0 {
        none_str()
    } else {
        join_with(ts, mode_sep(mode))
    }
}

/// Join the collected tokens for the given output target.
pub fn format_licenses(tokens: &Vec<String>, mode: OutputMode) -> (r: String)
    ensures
        r@ == joined_tokens(seq_views(tokens@), mode),
{
    if tokens.len() == 0 {
        let r = String::from_str("None");
        proof {
            lemma_sentinel_lits();
        }
        r
    } else {
        match mode {
            OutputMode::Table => {
                let r = join_strings(tokens, "\n");
                proof {
                    reveal_strlit("\n");
                    assert("\n"@ =~= seq!['\n']);
                }
                r
            },
            OutputMode::Csv => {
                let r = join_strings(tokens, "; ");
                proof {
                    reveal_strlit("; ");
                    assert("; "@ =~= seq![';', ' ']);
                }
                r
            },
        }
    }
}

/// A field, or the "Unknown" placeholder when it is absent.
pub open spec fn or_unknown(o: Option<String>) -> Seq<char> {
    match o {
        Some(s) => s@,
        None => unknown_str(),
    }
}

fn clone_or_unknown(o: &Option<String>) -> (r: String)
    ensures
        r@ == or_unknown(*o),
{
    match o {
        Some(s) => s.clone(),
        None => {
            let r = String::from_str("Unknown");
            proof {
                lemma_sentinel_lits();
            }
            r
        },
    }
}

/// Assemble the output row for one artifact: absent name, version and type
/// become "Unknown", and the license tokens are joined for the output mode.
pub fn assemble_record(artifact: &Artifact, mode: OutputMode) -> (r: CsvRecord)
    ensures
        r.name@ == or_unknown(artifact.name),
        r.version@ == or_unknown(artifact.version),
        r.artifact_type@ == or_unknown(artifact.artifact_type),
        r.licenses@ == joined_tokens(artifact_tokens(license_field_view(artifact.licenses)), mode),
{
    let tokens = collect_license_tokens(&artifact.licenses);
    let licenses = format_licenses(&tokens, mode);
    CsvRecord {
        name: clone_or_unknown(&artifact.name),
        version: clone_or_unknown(&artifact.version),
        artifact_type: clone_or_unknown(&artifact.artifact_type),
        licenses,
    }
}

// ---------------------------------------------------------------------------
// Laws
// ---------------------------------------------------------------------------
/// The "None" sentinel line decomposes into no tokens at all.
pub proof fn lemma_none_line_no_tokens()
    ensures
        normalized_tokens(none_str()) == Seq::<Seq<char>>::empty(),
{
    let s = none_str();
    assert forall|j: int| 0 <= j < s.len() implies !crate::text::is_delim(
        Delim::Newline,
        s[j],
    ) by {
        if j == 0 {
        } else if j == 1 {
        } else if j == 2 {
        } else {
        }
    }
    crate::text::lemma_find_idx_at(s, Delim::Newline, s.len() as int);
    assert(split_delim(s, Delim::Newline) == seq![s]);
    crate::text::lemma_trim_noop(s);
    assert(line_tokens(s) == Seq::<Seq<char>>::empty());
    assert(seq![s][0] == s);
    assert(seq![s].subrange(1, 1) =~= Seq::<Seq<char>>::empty());
    assert(drop_none_tokens(Seq::<Seq<char>>::empty()) == Seq::<Seq<char>>::empty());
    assert(tokens_of_lines(Seq::<Seq<char>>::empty()) == Seq::<Seq<char>>::empty());
    assert(Seq::<Seq<char>>::empty() + Seq::<Seq<char>>::empty() =~= Seq::<Seq<char>>::empty());
    assert(tokens_of_lines(seq![s]) =~= Seq::<Seq<char>>::empty());
}

/// An artifact whose license field is absent reports the "None" sentinel in
/// its licenses cell, in either output mode.
pub proof fn lemma_absent_licenses_yield_none(o: Option<Seq<SyftLicense>>, mode: OutputMode)
    requires
        o is None,
    ensures
        joined_tokens(artifact_tokens(o), mode) == none_str(),
{
    assert(extracted_line(o) == none_str());
    lemma_none_line_no_tokens();
}

/// A structured entry that offers no SPDX expression and only a blank or
/// absent free-form value contributes no candidate, and so no tokens; in
/// particular, processing it again can never make tokens appear.
pub proof fn lemma_blank_entry_contributes_nothing(e: SyftLicense)
    requires
        e matches SyftLicense::Detailed { value, spdx_expression, license_type: _ }
            && spdx_expression is None && (value matches Some(v) ==> trim_spec(v@).len() == 0),
    ensures
        entry_candidate(e) is None,
        cand_seq(e) == Seq::<Seq<char>>::empty(),
{
}

proof fn lemma_good_lines(lines: Seq<Seq<char>>)
    requires
        forall|i: int| 0 <= i < lines.len() ==> trim_spec(#[trigger] lines[i]) == lines[i],
        forall|i: int| 0 <= i < lines.len() ==> (#[trigger] lines[i]).len() > 0,
        forall|i: int| 0 <= i < lines.len() ==> #[trigger] lines[i] != none_str(),
        forall|i: int| 0 <= i < lines.len() ==> !(#[trigger] lines[i]).contains(';'),
        forall|i: int|
            0 <= i < lines.len() ==> !has_sub(#[trigger] lines[i], and_infix()) && !has_sub(
                lines[i],
                or_infix(),
            ) && !has_sub(lines[i], with_infix()),
    ensures
        tokens_of_lines(lines) == lines,
    decreases lines.len(),
{
    if lines.len() == 0 {
        assert(tokens_of_lines(lines) =~= lines);
    } else {
        let t = lines[0];
        assert(line_tokens(t) == seq![t]);
        assert(seq![t][0] == t);
        assert(keep_token(t));
        assert(seq![t].subrange(1, 1) =~= Seq::<Seq<char>>::empty());
        assert(drop_none_tokens(Seq::<Seq<char>>::empty()) == Seq::<Seq<char>>::empty());
        assert(seq![t] + Seq::<Seq<char>>::empty() =~= seq![t]);
        assert(drop_none_tokens(seq![t]) =~= seq![t]);
        let rest = lines.subrange(1, lines.len() as int);
        assert forall|i: int| 0 <= i < rest.len() implies trim_spec(#[trigger] rest[i]) == rest[i]
            && rest[i].len() > 0 && rest[i] != none_str() && !rest[i].contains(';') && !has_sub(
            rest[i],
            and_infix(),
        ) && !has_sub(rest[i], or_infix()) && !has_sub(rest[i], with_infix()) by {
            assert(rest[i] == lines[i + 1]);
        }
        lemma_good_lines(rest);
        assert(tokens_of_lines(lines) =~= seq![t] + rest);
        assert(seq![t] + rest =~= lines);
    }
}

/// Round trip: a token sequence that is already atomic — each token trimmed,
/// non-empty, not the "None" sentinel, and free of newlines, semicolons and
/// space-delimited SPDX operator substrings — joined as a table-mode licenses
/// cell and run back through newline splitting and per-line decomposition,
/// comes out unchanged.
pub proof fn lemma_table_mode_round_trip(tokens: Seq<Seq<char>>)
    requires
        forall|i: int| 0 <= i < tokens.len() ==> trim_spec(#[trigger] tokens[i]) == tokens[i],
        forall|i: int| 0 <= i < tokens.len() ==> (#[trigger] tokens[i]).len() > 0,
        forall|i: int| 0 <= i < tokens.len() ==> #[trigger] tokens[i] != none_str(),
        forall|i: int| 0 <= i < tokens.len() ==> !(#[trigger] tokens[i]).contains('\n'),
        forall|i: int| 0 <= i < tokens.len() ==> !(#[trigger] tokens[i]).contains(';'),
        forall|i: int|
            0 <= i < tokens.len() ==> !has_sub(#[trigger] tokens[i], and_infix()) && !has_sub(
                tokens[i],
                or_infix(),
            ) && !has_sub(tokens[i], with_infix()),
    ensures
        normalized_tokens(joined_tokens(tokens, OutputMode::Table)) == tokens,
{
    if tokens.len() == 0 {
        lemma_none_line_no_tokens();
    } else {
        assert forall|i: int, j: int|
            0 <= i < tokens.len() && 0 <= j < tokens[i].len() implies !crate::text::is_delim(
            Delim::Newline,
            #[trigger] tokens[i][j],
        ) by {
            if tokens[i][j] == '\n' {
                assert(tokens[i].contains('\n'));
            }
        }
        crate::text::lemma_split_join(tokens, Delim::Newline, '\n');
        lemma_good_lines(tokens);
    }
}

/// Assemble one row per artifact, in input order.
pub fn assemble_records(artifacts: &Vec<Artifact>, mode: OutputMode) -> (r: Vec<CsvRecord>)
    ensures
        r@.len() == artifacts@.len(),
        forall|i: int|
            0 <= i < r@.len() ==> ((#[trigger] r@[i]).name@ == or_unknown(artifacts@[i].name)
                && r@[i].version@ == or_unknown(artifacts@[i].version) && r@[i].artifact_type@
                == or_unknown(artifacts@[i].artifact_type) && r@[i].licenses@ == joined_tokens(
                artifact_tokens(license_field_view(artifacts@[i].licenses)),
                mode,
            )),
{
    let mut out: Vec<CsvRecord> = Vec::new();
    let mut i: usize = 0;
    while i < artifacts.len()
        invariant
            0 <= i <= artifacts@.len(),
            out@.len() == i,
            forall|k: int|
                0 <= k < i ==> ((#[trigger] out@[k]).name@ == or_unknown(artifacts@[k].name)
                    && out@[k].version@ == or_unknown(artifacts@[k].version) && out@[k].artifact_type@
                    == or_unknown(artifacts@[k].artifact_type) && out@[k].licenses@ == joined_tokens(
                    artifact_tokens(license_field_view(artifacts@[k].licenses)),
                    mode,
                )),
        decreases artifacts@.len() - i,
    {
        let rec = assemble_record(&artifacts[i], mode);
        out.push(rec);
        i = i + 1;
    }
    out
}

} // verus!
