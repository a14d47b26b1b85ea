//! The laws of the engine, stated and proved over the specification model:
//! marker/argument alignment of the formatter, inertness of fully escaped
//! text, normalized output as a fixed point, the binder round trip, and
//! completeness of the field usage validator.

use vstd::prelude::*;

use crate::binder::{first_match, keyword_arg_for, lemma_first_match, KeywordArg};
use crate::formatter::{args_from, extracted, formatted, formatted_from, marker};
use crate::scanner::{
    active_close, active_open, find_char, lemma_active_close_bounds, lemma_active_open_bounds,
    lemma_find_char, lemma_run_end, run_end,
};
use crate::validator::{appears, unused_fields};

verus! {

// ---------------------------------------------------------------------------
// Marker/argument alignment: the normalized template decomposes into literal
// text and markers, the markers are numbered 0, 1, ... from left to right,
// and they align one-to-one with the extracted arguments.
// ---------------------------------------------------------------------------
/// One piece of the normalized output: literal text carried over unchanged,
/// or the marker numbered `index` standing for the extracted text `arg`.
pub enum Piece {
    Lit { text: Seq<char> },
    Ph { index: nat, arg: Seq<char> },
}

/// The text a piece contributes to the normalized template.
pub open spec fn piece_text(p: Piece) -> Seq<char> {
    match p {
        Piece::Lit { text } => text,
        Piece::Ph { index, arg: _ } => marker(index),
    }
}

/// The concatenated text of a sequence of pieces.
pub open spec fn pieces_text(ps: Seq<Piece>) -> Seq<char>
    decreases ps.len(),
{
    if ps.len() == 0 {
        Seq::empty()
    } else {
        piece_text(ps[0]) + pieces_text(ps.drop_first())
    }
}

/// The extracted arguments of a sequence of pieces, one per marker, in order.
pub open spec fn pieces_args(ps: Seq<Piece>) -> Seq<Seq<char>>
    decreases ps.len(),
{
    if ps.len() == 0 {
        Seq::empty()
    } else {
        match ps[0] {
            Piece::Lit { text: _ } => pieces_args(ps.drop_first()),
            Piece::Ph { index: _, arg } => seq![arg] + pieces_args(ps.drop_first()),
        }
    }
}

/// How many markers a sequence of pieces holds.
pub open spec fn marker_count(ps: Seq<Piece>) -> nat
    decreases ps.len(),
{
    if ps.len() == 0 {
        0
    } else {
        match ps[0] {
            Piece::Lit { text: _ } => marker_count(ps.drop_first()),
            Piece::Ph { index: _, arg: _ } => 1 + marker_count(ps.drop_first()),
        }
    }
}

/// Whether the markers of `ps` are numbered consecutively starting at `k`.
pub open spec fn markers_number_from(ps: Seq<Piece>, k: nat) -> bool
    decreases ps.len(),
{
    if ps.len() == 0 {
        true
    } else {
        match ps[0] {
            Piece::Lit { text: _ } => markers_number_from(ps.drop_first(), k),
            Piece::Ph { index, arg: _ } => index == k && markers_number_from(
                ps.drop_first(),
                k + 1,
            ),
        }
    }
}

/// The decomposition of the normalized form of `s`, scanning from `cp` with
/// next marker index `pos`: one literal piece and one marker piece per scan
/// step, and a final literal piece for the remainder.
pub open spec fn pieces_from(s: Seq<char>, cp: int, pos: nat) -> Seq<Piece>
    decreases s.len() - cp,
{
    if cp < 0 || cp >= s.len() {
        Seq::empty()
    } else {
        match (active_open(s, cp), active_close(s, cp)) {
            (Some(o), Some(c)) => {
                proof {
                    lemma_active_open_bounds(s, cp);
                    lemma_active_close_bounds(s, cp);
                }
                if o < c {
                    seq![
                        Piece::Lit { text: s.subrange(cp, o) },
                        Piece::Ph { index: pos, arg: s.subrange(o + 1, c) },
                    ] + pieces_from(s, c + 1, pos + 1)
                } else {
                    seq![
                        Piece::Lit { text: s.subrange(cp, c) },
                        Piece::Ph { index: pos, arg: "}"@ },
                    ] + pieces_from(s, c + 1, pos + 1)
                }
            },
            (Some(o), None) => {
                proof {
                    lemma_active_open_bounds(s, cp);
                }
                seq![
                    Piece::Lit { text: s.subrange(cp, o) },
                    Piece::Ph { index: pos, arg: "{"@ },
                ] + pieces_from(s, o + 1, pos + 1)
            },
            (None, Some(c)) => {
                proof {
                    lemma_active_close_bounds(s, cp);
                }
                seq![
                    Piece::Lit { text: s.subrange(cp, c) },
                    Piece::Ph { index: pos, arg: "}"@ },
                ] + pieces_from(s, c + 1, pos + 1)
            },
            (None, None) => seq![Piece::Lit { text: s.subrange(cp, s.len() as int) }],
        }
    }
}

/// The decomposition of the normalized form of `s`.
pub open spec fn pieces(s: Seq<char>) -> Seq<Piece> {
    pieces_from(s, 0, 0)
}

proof fn lemma_lit_prefix(t: Seq<char>, rest: Seq<Piece>, k: nat)
    ensures
        pieces_text(seq![Piece::Lit { text: t }] + rest) == t + pieces_text(rest),
        pieces_args(seq![Piece::Lit { text: t }] + rest) == pieces_args(rest),
        marker_count(seq![Piece::Lit { text: t }] + rest) == marker_count(rest),
        markers_number_from(seq![Piece::Lit { text: t }] + rest, k) == markers_number_from(
            rest,
            k,
        ),
{
    let ps = seq![Piece::Lit { text: t }] + rest;
    assert(ps[0] == Piece::Lit { text: t });
    assert(ps.drop_first() =~= rest);
}

proof fn lemma_lit_ph_prefix(t: Seq<char>, idx: nat, arg: Seq<char>, rest: Seq<Piece>, k: nat)
    ensures
        pieces_text(
            seq![Piece::Lit { text: t }, Piece::Ph { index: idx, arg }] + rest,
        ) == t + marker(idx) + pieces_text(rest),
        pieces_args(seq![Piece::Lit { text: t }, Piece::Ph { index: idx, arg }] + rest) == seq![
            arg,
        ] + pieces_args(rest),
        marker_count(seq![Piece::Lit { text: t }, Piece::Ph { index: idx, arg }] + rest) == 1
            + marker_count(rest),
        markers_number_from(
            seq![Piece::Lit { text: t }, Piece::Ph { index: idx, arg }] + rest,
            k,
        ) == (idx == k && markers_number_from(rest, k + 1)),
{
    let ps = seq![Piece::Lit { text: t }, Piece::Ph { index: idx, arg }] + rest;
    let ps1 = seq![Piece::Ph { index: idx, arg }] + rest;
    assert(ps[0] == Piece::Lit { text: t });
    assert(ps.drop_first() =~= ps1);
    assert(ps1[0] == Piece::Ph { index: idx, arg });
    assert(ps1.drop_first() =~= rest);
    assert(pieces_text(ps1) =~= marker(idx) + pieces_text(rest));
    assert(pieces_text(ps) =~= t + marker(idx) + pieces_text(rest));
    assert(pieces_args(ps1) =~= seq![arg] + pieces_args(rest));
    assert(pieces_args(ps) =~= seq![arg] + pieces_args(rest));
    assert(marker_count(ps1) == 1 + marker_count(rest));
    assert(markers_number_from(ps1, k) == (idx == k && markers_number_from(rest, k + 1)));
}

proof fn lemma_pieces_from(s: Seq<char>, cp: int, pos: nat)
    ensures
        pieces_text(pieces_from(s, cp, pos)) == formatted_from(s, cp, pos),
        pieces_args(pieces_from(s, cp, pos)) == args_from(s, cp),
        marker_count(pieces_from(s, cp, pos)) == args_from(s, cp).len(),
        markers_number_from(pieces_from(s, cp, pos), pos),
    decreases s.len() - cp,
{
    if cp < 0 || cp >= s.len() {
    } else {
        match (active_open(s, cp), active_close(s, cp)) {
            (Some(o), Some(c)) => {
                lemma_active_open_bounds(s, cp);
                lemma_active_close_bounds(s, cp);
                lemma_pieces_from(s, c + 1, pos + 1);
                if o < c {
                    lemma_lit_ph_prefix(
                        s.subrange(cp, o),
                        pos,
                        s.subrange(o + 1, c),
                        pieces_from(s, c + 1, pos + 1),
                        pos,
                    );
                } else {
                    lemma_lit_ph_prefix(
                        s.subrange(cp, c),
                        pos,
                        "}"@,
                        pieces_from(s, c + 1, pos + 1),
                        pos,
                    );
                }
            },
            (Some(o), None) => {
                lemma_active_open_bounds(s, cp);
                lemma_pieces_from(s, o + 1, pos + 1);
                lemma_lit_ph_prefix(
                    s.subrange(cp, o),
                    pos,
                    "{"@,
                    pieces_from(s, o + 1, pos + 1),
                    pos,
                );
            },
            (None, Some(c)) => {
                lemma_active_close_bounds(s, cp);
                lemma_pieces_from(s, c + 1, pos + 1);
                lemma_lit_ph_prefix(
                    s.subrange(cp, c),
                    pos,
                    "}"@,
                    pieces_from(s, c + 1, pos + 1),
                    pos,
                );
            },
            (None, None) => {
                lemma_lit_prefix(s.subrange(cp, s.len() as int), Seq::empty(), pos);
                assert(seq![Piece::Lit { text: s.subrange(cp, s.len() as int) }]
                    =~= seq![Piece::Lit { text: s.subrange(cp, s.len() as int) }]
                    + Seq::<Piece>::empty());
            },
        }
    }
}

/// The formatter keeps markers and arguments aligned: the normalized template
/// is exactly the concatenated decomposition `pieces(s)`, the arguments of
/// that decomposition are exactly `extracted(s)` — so the number of markers
/// equals the number of extracted arguments — and the markers are numbered
/// 0, 1, ... in left-to-right order.
pub proof fn lemma_marker_alignment(s: Seq<char>)
    ensures
        pieces_text(pieces(s)) == formatted(s),
        pieces_args(pieces(s)) == extracted(s),
        marker_count(pieces(s)) == extracted(s).len(),
        markers_number_from(pieces(s), 0),
{
    lemma_pieces_from(s, 0, 0);
}

// ---------------------------------------------------------------------------
// Fully escaped text is inert: when every brace run has even length, nothing
// is extracted and the template is returned unchanged.
// ---------------------------------------------------------------------------
/// Whether a maximal run of `c` characters starts at index `i`.
pub open spec fn run_starts_at(s: Seq<char>, i: int, c: char) -> bool {
    0 <= i < s.len() && s[i] == c && (i == 0 || s[i - 1] != c)
}

/// Whether every maximal run of `c` characters in `s` has even length.
pub open spec fn runs_even(s: Seq<char>, c: char) -> bool {
    forall|i: int| #[trigger] run_starts_at(s, i, c) ==> (run_end(s, i, c) - i) % 2 == 0
}

/// Whether every maximal brace run of `s`, of either kind, has even length:
/// the whole input is escaped literal text.
pub open spec fn all_brace_runs_even(s: Seq<char>) -> bool {
    runs_even(s, '{') && runs_even(s, '}')
}

proof fn lemma_even_runs_no_open(s: Seq<char>, from: int)
    requires
        runs_even(s, '{'),
        0 <= from,
        from == 0 || from >= s.len() || s[from] != '{' || s[from - 1] != '{',
    ensures
        active_open(s, from) is None,
    decreases s.len() - from,
{
    match find_char(s, from, '{') {
        None => {}
        Some(i) => {
            lemma_find_char(s, from, '{');
            lemma_run_end(s, i + 1, '{');
            let e = run_end(s, i + 1, '{');
            assert(run_starts_at(s, i, '{'));
            assert(run_end(s, i, '{') == e);
            lemma_even_runs_no_open(s, e);
        },
    }
}

proof fn lemma_even_runs_no_close(s: Seq<char>, from: int)
    requires
        runs_even(s, '}'),
        0 <= from,
        from == 0 || from >= s.len() || s[from] != '}' || s[from - 1] != '}',
    ensures
        active_close(s, from) is None,
    decreases s.len() - from,
{
    match find_char(s, from, '}') {
        None => {}
        Some(i) => {
            lemma_find_char(s, from, '}');
            lemma_run_end(s, i + 1, '}');
            let e = run_end(s, i + 1, '}');
            assert(run_starts_at(s, i, '}'));
            assert(run_end(s, i, '}') == e);
            lemma_even_runs_no_close(s, e);
        },
    }
}

/// A template whose brace runs all have even length holds no active brace:
/// formatting leaves it unchanged and extracts no argument.
pub proof fn lemma_even_runs_inert(s: Seq<char>)
    requires
        all_brace_runs_even(s),
    ensures
        formatted(s) == s,
        extracted(s).len() == 0,
{
    lemma_even_runs_no_open(s, 0);
    lemma_even_runs_no_close(s, 0);
    assert(formatted(s) =~= s);
}

// ---------------------------------------------------------------------------
// Normalized output is a fixed point: a template from which nothing is
// extracted is returned unchanged, so running the formatter again neither
// changes the text nor extracts anything new.
// ---------------------------------------------------------------------------
/// A template that extracts no arguments is already normalized: the formatter
/// returns it verbatim, and running the formatter on the output again yields
/// the same text and again extracts nothing.
pub proof fn lemma_normalized_fixed_point(s: Seq<char>)
    requires
        extracted(s).len() == 0,
    ensures
        formatted(s) == s,
        formatted(formatted(s)) == formatted(s),
        extracted(formatted(s)).len() == 0,
{
    if s.len() == 0 {
        assert(formatted(s) =~= s);
    } else {
        match (active_open(s, 0), active_close(s, 0)) {
            (None, None) => {
                assert(formatted(s) =~= s);
            },
            _ => {
                assert(extracted(s).len() > 0);
            },
        }
    }
}

// ---------------------------------------------------------------------------
// Binder round trip: a keyword argument references a field's pattern binding
// exactly when the argument text equals that field's identifier.
// ---------------------------------------------------------------------------
/// Round trip between argument text and bindings: a keyword argument owed for
/// `arg` references the first field whose identifier equals `arg` whenever
/// one exists — never the literal text — and carries the raw text as a
/// literal exactly when no field matches.
pub proof fn lemma_bind_round_trip(k: KeywordArg, arg: Seq<char>, fields: Seq<Seq<char>>)
    requires
        keyword_arg_for(k, arg, fields),
    ensures
        k is Field <==> fields.contains(arg),
        k matches KeywordArg::Field(j) ==> 0 <= j < fields.len() && fields[j as int] == arg && (
        forall|l: int| 0 <= l < j ==> fields[l] != arg),
        k matches KeywordArg::Literal(text) ==> text@ == arg && (forall|l: int|
            0 <= l < fields.len() ==> fields[l] != arg),
{
    lemma_first_match(fields, arg);
    match first_match(fields, arg) {
        Some(j) => {
            assert(fields.contains(arg));
        },
        None => {
            assert(!fields.contains(arg));
        },
    }
}

// ---------------------------------------------------------------------------
// Validator completeness: the reported list is empty exactly when every
// field is referenced, it holds only unreferenced fields, and it misses none.
// ---------------------------------------------------------------------------
/// The validator's result is exactly the unreferenced fields: empty precisely
/// when every field appears in some argument list, holding only fields that
/// appear in none, and holding every such field.
pub proof fn lemma_validate_complete(fields: Seq<Seq<char>>, lists: Seq<Seq<Seq<char>>>)
    ensures
        unused_fields(fields, lists).len() == 0 <==> (forall|i: int|
            0 <= i < fields.len() ==> appears(lists, #[trigger] fields[i])),
        forall|i: int|
            0 <= i < unused_fields(fields, lists).len() ==> !appears(
                lists,
                #[trigger] unused_fields(fields, lists)[i],
            ) && fields.contains(unused_fields(fields, lists)[i]),
        forall|i: int|
            0 <= i < fields.len() && !appears(lists, #[trigger] fields[i]) ==> unused_fields(
                fields,
                lists,
            ).contains(fields[i]),
{
    let pred = |f: Seq<char>| !appears(lists, f);
    let unused = fields.filter(pred);
    assert forall|i: int| 0 <= i < unused.len() implies !appears(lists, #[trigger] unused[i])
        && fields.contains(unused[i]) by {
        fields.lemma_filter_pred(pred, i);
        assert(unused.contains(unused[i]));
        fields.lemma_filter_contains_rev(pred, unused[i]);
    }
    assert forall|i: int|
        0 <= i < fields.len() && !appears(lists, #[trigger] fields[i]) implies unused.contains(
        fields[i],
    ) by {
        fields.lemma_filter_contains(pred, i);
    }
    if forall|i: int| 0 <= i < fields.len() ==> appears(lists, #[trigger] fields[i]) {
        fields.lemma_all_neg_filter_empty(pred);
    }
}

} // verus!
