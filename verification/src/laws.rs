//! Properties of the compiler as a whole, stated over the specifications
//! that the executable functions meet.
use vstd::prelude::*;
use crate::ast::{keys_distinct, lemma_pairs_map_at, DocumentView, ErrorView, SectionView};
use crate::chars::{
    lemma_span_end_bounds, lemma_trim_end_keeps_head, lemma_trim_start_all_ws, spec_is_ident,
    span_end, spec_is_ws, trim, trim_end, trim_start, CharClass,
};
use crate::expr::{
    binary, binary_op_of, expression_outcome, is_additive_op, is_multiplicative_op, lex_from,
    p_additive, p_additive_rest, p_multiplicative, p_multiplicative_rest, p_power, p_primary,
    operator_token, p_unary, unary_op_of, BinaryOp, ExprError, ExprTree, ParseOutcome, Token,
    UnaryOp,
};
use crate::lexer::{classify_spec, invariant_spec, LineKindView};
use crate::number::{decimal_end, number_literal_spec};
use crate::parser::{
    allowed_section, lemma_parse_from_unfold, lemma_section_opened_push, line_step, parse_document_spec, parse_from,
    section_opened, ParseState,
};
use crate::chars::{find_from, lemma_find_from};
use crate::ast::empty_document;
use crate::validator::{
    allowed_op_names, allowed_variable_names, formula_error_at, formula_errors,
    invariant_error_at, invariant_errors, meta_error_at, meta_errors, meta_pairs,
    pipeline_error_at, pipeline_errors, validate_spec,
};

verus! {

// ---------------------------------------------------------------------------
// White space around a line
proof fn lemma_trim_end_last(s: Seq<char>)
    ensures
        trim_end(s).len() > 0 ==> !spec_is_ws(trim_end(s).last()),
        trim_end(s).len() <= s.len(),
    decreases s.len(),
{
    if s.len() > 0 && spec_is_ws(s.last()) {
        lemma_trim_end_last(s.drop_last());
    }
}

/// Trimming twice is trimming once.
pub proof fn lemma_trim_idempotent(s: Seq<char>)
    ensures
        trim(trim(s)) == trim(s),
{
    let u = trim_start(s);
    let t = trim(s);
    lemma_trim_start_all_ws(s);
    lemma_trim_end_keeps_head(u);
    lemma_trim_end_last(u);
    if t.len() > 0 {
        assert(!spec_is_ws(t[0]));
        assert(trim_start(t) == t);
        assert(trim_end(t) == t);
    } else {
        assert(trim_start(t) == t);
        assert(trim_end(t) == t);
    }
}

/// White space before and after a line does not change what the line is.
pub proof fn law_classify_ignores_surrounding_space(line: Seq<char>)
    ensures
        classify_spec(trim(line)) == classify_spec(line),
{
    lemma_trim_idempotent(line);
}

// ---------------------------------------------------------------------------
// What a parsed document holds

/// A parsed document is well formed: its sections are allowed and distinct,
/// each entry stands under the section it belongs to, and every name in it
/// (section names, meta keys and values, formula targets, invariant fields,
/// operation names) is an identifier.
pub open spec fn document_wf(doc: DocumentView) -> bool {
    &&& forall|i: int| 0 <= i < doc.sections.len() ==> #[trigger] allowed_section(doc.sections[i].name)
    &&& forall|i: int, j: int|
        0 <= i < doc.sections.len() && 0 <= j < doc.sections.len() && i != j ==> #[trigger] doc.sections[i].name
            != #[trigger] doc.sections[j].name
    &&& forall|i: int| 0 <= i < doc.meta.len() ==> #[trigger] spec_is_ident(doc.meta[i].key) && spec_is_ident(doc.meta[i].value)
    &&& forall|i: int| 0 <= i < doc.formulas.len() ==> #[trigger] spec_is_ident(doc.formulas[i].lhs)
    &&& forall|i: int| 0 <= i < doc.invariants.len() ==> #[trigger] spec_is_ident(doc.invariants[i].field)
    &&& forall|i: int| 0 <= i < doc.pipeline.len() ==> #[trigger] spec_is_ident(doc.pipeline[i].name)
    &&& doc.meta.len() > 0 ==> section_opened(doc.sections, "meta"@)
    &&& doc.formulas.len() > 0 ==> section_opened(doc.sections, "formula"@)
    &&& doc.invariants.len() > 0 ==> section_opened(doc.sections, "invariant"@)
    &&& doc.pipeline.len() > 0 ==> section_opened(doc.sections, "pipeline"@)
}

spec fn state_wf(st: ParseState) -> bool {
    &&& document_wf(st.doc)
    &&& st.current matches Some(c) ==> section_opened(st.doc.sections, c)
}

proof fn lemma_classify_names(t: Seq<char>)
    ensures
        classify_spec(t) matches Some(k) ==> match k {
            LineKindView::Section { name } => spec_is_ident(name),
            LineKindView::KeyValue { key, value } => spec_is_ident(key) && spec_is_ident(value),
            LineKindView::Formula { lhs, .. } => spec_is_ident(lhs),
            LineKindView::Invariant { field, .. } => spec_is_ident(field),
            LineKindView::PipelineOp { name } => spec_is_ident(name),
        },
{
    let u = trim(t);
    if u.len() > 0 {
        if invariant_spec(u) is Some {
            lemma_span_end_bounds(u, 1, CharClass::IdentContinue);
            let e = crate::chars::span_end(u, 1, CharClass::IdentContinue);
            let f = u.subrange(0, e);
            assert forall|i: int| 1 <= i < f.len() implies #[trigger] crate::chars::spec_ident_continue(f[i]) by {
                assert(f[i] == u[i]);
                assert(crate::chars::in_class(u[i], CharClass::IdentContinue));
            }
        }
    }
}

proof fn lemma_line_step_wf(st: ParseState, line: nat, raw: Seq<char>)
    requires
        state_wf(st),
    ensures
        line_step(st, line, raw) matches Ok(next) ==> state_wf(next),
{
    let t = trim(raw);
    if t.len() > 0 {
        lemma_classify_names(t);
        match classify_spec(t) {
            Some(LineKindView::Section { name }) => {
                if allowed_section(name) && !section_opened(st.doc.sections, name) {
                    let sec = SectionView { name, line };
                    let secs = st.doc.sections.push(sec);
                    lemma_section_opened_push(st.doc.sections, sec, "meta"@);
                    lemma_section_opened_push(st.doc.sections, sec, "formula"@);
                    lemma_section_opened_push(st.doc.sections, sec, "invariant"@);
                    lemma_section_opened_push(st.doc.sections, sec, "pipeline"@);
                    lemma_section_opened_push(st.doc.sections, sec, name);
                    assert forall|i: int| 0 <= i < secs.len() implies #[trigger] allowed_section(
                        secs[i].name,
                    ) by {
                        if i < st.doc.sections.len() {
                            assert(secs[i] == st.doc.sections[i]);
                        }
                    }
                    assert forall|i: int, j: int|
                        0 <= i < secs.len() && 0 <= j < secs.len() && i != j implies #[trigger] secs[i].name
                        != #[trigger] secs[j].name by {
                        if i < st.doc.sections.len() && j < st.doc.sections.len() {
                            assert(secs[i] == st.doc.sections[i]);
                            assert(secs[j] == st.doc.sections[j]);
                        } else if i < st.doc.sections.len() {
                            assert(secs[i] == st.doc.sections[i]);
                            assert(secs[i].name != name);
                        } else {
                            assert(secs[j] == st.doc.sections[j]);
                            assert(secs[j].name != name);
                        }
                    }
                }
            },
            Some(LineKindView::KeyValue { key, value }) => {
                let m = st.doc.meta.push(crate::ast::KeyValueView { key, value, line });
                assert forall|i: int| 0 <= i < m.len() implies #[trigger] spec_is_ident(m[i].key)
                    && spec_is_ident(m[i].value) by {
                    if i < st.doc.meta.len() {
                        assert(m[i] == st.doc.meta[i]);
                    }
                }
            },
            Some(LineKindView::Formula { lhs, rhs }) => {
                let m = st.doc.formulas.push(crate::ast::FormulaView { lhs, rhs, line });
                assert forall|i: int| 0 <= i < m.len() implies #[trigger] spec_is_ident(m[i].lhs) by {
                    if i < st.doc.formulas.len() {
                        assert(m[i] == st.doc.formulas[i]);
                    }
                }
            },
            Some(LineKindView::Invariant { field, min, max }) => {
                let m = st.doc.invariants.push(crate::ast::InvariantView { field, min, max, line });
                assert forall|i: int| 0 <= i < m.len() implies #[trigger] spec_is_ident(m[i].field) by {
                    if i < st.doc.invariants.len() {
                        assert(m[i] == st.doc.invariants[i]);
                    }
                }
            },
            Some(LineKindView::PipelineOp { name }) => {
                let m = st.doc.pipeline.push(crate::ast::PipelineOpView { name, line });
                assert forall|i: int| 0 <= i < m.len() implies #[trigger] spec_is_ident(m[i].name) by {
                    if i < st.doc.pipeline.len() {
                        assert(m[i] == st.doc.pipeline[i]);
                    }
                }
            },
            None => {},
        }
    }
}

proof fn lemma_parse_from_wf(st: ParseState, s: Seq<char>, i: int, line: nat)
    requires
        state_wf(st),
        0 <= i <= s.len(),
    ensures
        parse_from(st, s, i, line) matches Ok(fin) ==> state_wf(fin),
    decreases s.len() - i,
{
    lemma_find_from(s, i, '\n');
    lemma_parse_from_unfold(st, s, i, line);
    match find_from(s, i, '\n') {
        Some(k) => {
            lemma_line_step_wf(st, line, s.subrange(i, k));
            if let Ok(next) = line_step(st, line, s.subrange(i, k)) {
                lemma_parse_from_wf(next, s, k + 1, line + 1);
            }
        },
        None => {
            lemma_line_step_wf(st, line, s.subrange(i, s.len() as int));
        },
    }
}

/// Every document that parses is well formed (`document_wf`): no section
/// but the four allowed ones, none twice, every entry under its own
/// section, and every name an identifier.
pub proof fn law_parsed_document_wf(s: Seq<char>)
    ensures
        parse_document_spec(s) matches Ok(doc) ==> document_wf(doc),
{
    let init = ParseState { doc: empty_document(), current: None };
    lemma_parse_from_wf(init, s, 0, 1);
}

// ---------------------------------------------------------------------------
// Where entries stand

/// Header `k` is the last header before line `line`.
pub open spec fn last_header_before(secs: Seq<SectionView>, k: int, line: nat) -> bool {
    &&& 0 <= k < secs.len()
    &&& secs[k].line < line
    &&& k + 1 < secs.len() ==> line < secs[k + 1].line
}

/// The entry on line `line` stands in a section named `name`: the last
/// header before it opens such a section.
pub open spec fn stands_under(secs: Seq<SectionView>, line: nat, name: Seq<char>) -> bool {
    exists|k: int| #[trigger] last_header_before(secs, k, line) && secs[k].name == name
}

/// Headers and the entries of each kind come in the order of their lines,
/// and each entry stands under the last header before it, which opens the
/// section of its kind.
pub open spec fn entries_placed(doc: DocumentView) -> bool {
    &&& forall|i: int, j: int|
        0 <= i < j < doc.sections.len() ==> #[trigger] doc.sections[i].line
            < #[trigger] doc.sections[j].line
    &&& forall|i: int, j: int|
        0 <= i < j < doc.meta.len() ==> #[trigger] doc.meta[i].line < #[trigger] doc.meta[j].line
    &&& forall|i: int, j: int|
        0 <= i < j < doc.formulas.len() ==> #[trigger] doc.formulas[i].line
            < #[trigger] doc.formulas[j].line
    &&& forall|i: int, j: int|
        0 <= i < j < doc.invariants.len() ==> #[trigger] doc.invariants[i].line
            < #[trigger] doc.invariants[j].line
    &&& forall|i: int, j: int|
        0 <= i < j < doc.pipeline.len() ==> #[trigger] doc.pipeline[i].line
            < #[trigger] doc.pipeline[j].line
    &&& forall|i: int|
        0 <= i < doc.meta.len() ==> stands_under(doc.sections, #[trigger] doc.meta[i].line, "meta"@)
    &&& forall|i: int|
        0 <= i < doc.formulas.len() ==> stands_under(
            doc.sections,
            #[trigger] doc.formulas[i].line,
            "formula"@,
        )
    &&& forall|i: int|
        0 <= i < doc.invariants.len() ==> stands_under(
            doc.sections,
            #[trigger] doc.invariants[i].line,
            "invariant"@,
        )
    &&& forall|i: int|
        0 <= i < doc.pipeline.len() ==> stands_under(
            doc.sections,
            #[trigger] doc.pipeline[i].line,
            "pipeline"@,
        )
}

/// Every line of `doc` comes before line `n`.
spec fn lines_before(doc: DocumentView, n: nat) -> bool {
    &&& forall|i: int| 0 <= i < doc.sections.len() ==> #[trigger] doc.sections[i].line < n
    &&& forall|i: int| 0 <= i < doc.meta.len() ==> #[trigger] doc.meta[i].line < n
    &&& forall|i: int| 0 <= i < doc.formulas.len() ==> #[trigger] doc.formulas[i].line < n
    &&& forall|i: int| 0 <= i < doc.invariants.len() ==> #[trigger] doc.invariants[i].line < n
    &&& forall|i: int| 0 <= i < doc.pipeline.len() ==> #[trigger] doc.pipeline[i].line < n
}

/// What the parser keeps true before line `n`.
spec fn placement_state(st: ParseState, n: nat) -> bool {
    &&& entries_placed(st.doc)
    &&& lines_before(st.doc, n)
    &&& st.current is None ==> st.doc.sections.len() == 0
    &&& st.current matches Some(c) ==> st.doc.sections.len() > 0 && st.doc.sections.last().name == c
}

proof fn lemma_stands_under_push(secs: Seq<SectionView>, sec: SectionView, line: nat, name: Seq<char>)
    requires
        stands_under(secs, line, name),
        line < sec.line,
    ensures
        stands_under(secs.push(sec), line, name),
{
    let k = choose|k: int| #[trigger] last_header_before(secs, k, line) && secs[k].name == name;
    let s2 = secs.push(sec);
    assert(s2[k] == secs[k]);
    if k + 1 < secs.len() {
        assert(s2[k + 1] == secs[k + 1]);
    } else {
        assert(s2[k + 1] == sec);
    }
    assert(last_header_before(s2, k, line));
}

proof fn lemma_stands_under_last(secs: Seq<SectionView>, line: nat)
    requires
        secs.len() > 0,
        secs.last().line < line,
    ensures
        stands_under(secs, line, secs.last().name),
{
    assert(last_header_before(secs, secs.len() - 1, line));
}

proof fn lemma_line_step_placed(st: ParseState, n: nat, raw: Seq<char>)
    requires
        placement_state(st, n),
    ensures
        line_step(st, n, raw) matches Ok(next) ==> placement_state(next, n + 1),
{
    let d = st.doc;
    let t = trim(raw);
    if t.len() > 0 {
        if let Ok(next) = line_step(st, n, raw) {
            match classify_spec(t) {
                Some(LineKindView::Section { name }) => {
                    let sec = SectionView { name, line: n };
                    let secs = d.sections.push(sec);
                    assert forall|i: int, j: int| 0 <= i < j < secs.len() implies #[trigger] secs[i].line
                        < #[trigger] secs[j].line by {
                        assert(secs[i] == d.sections[i]);
                        if j < d.sections.len() {
                            assert(secs[j] == d.sections[j]);
                        }
                    }
                    assert forall|i: int| 0 <= i < secs.len() implies #[trigger] secs[i].line < n + 1 by {
                        if i < d.sections.len() {
                            assert(secs[i] == d.sections[i]);
                        }
                    }
                    assert forall|i: int| 0 <= i < d.meta.len() implies stands_under(
                        secs,
                        #[trigger] d.meta[i].line,
                        "meta"@,
                    ) by {
                        lemma_stands_under_push(d.sections, sec, d.meta[i].line, "meta"@);
                    }
                    assert forall|i: int| 0 <= i < d.formulas.len() implies stands_under(
                        secs,
                        #[trigger] d.formulas[i].line,
                        "formula"@,
                    ) by {
                        lemma_stands_under_push(d.sections, sec, d.formulas[i].line, "formula"@);
                    }
                    assert forall|i: int| 0 <= i < d.invariants.len() implies stands_under(
                        secs,
                        #[trigger] d.invariants[i].line,
                        "invariant"@,
                    ) by {
                        lemma_stands_under_push(d.sections, sec, d.invariants[i].line, "invariant"@);
                    }
                    assert forall|i: int| 0 <= i < d.pipeline.len() implies stands_under(
                        secs,
                        #[trigger] d.pipeline[i].line,
                        "pipeline"@,
                    ) by {
                        lemma_stands_under_push(d.sections, sec, d.pipeline[i].line, "pipeline"@);
                    }
                },
                Some(LineKindView::KeyValue { key, value }) => {
                    let m = d.meta.push(crate::ast::KeyValueView { key, value, line: n });
                    lemma_stands_under_last(d.sections, n);
                    assert forall|i: int, j: int| 0 <= i < j < m.len() implies #[trigger] m[i].line
                        < #[trigger] m[j].line by {
                        assert(m[i] == d.meta[i]);
                        if j < d.meta.len() {
                            assert(m[j] == d.meta[j]);
                        }
                    }
                    assert forall|i: int| 0 <= i < m.len() implies #[trigger] m[i].line < n + 1 by {
                        if i < d.meta.len() {
                            assert(m[i] == d.meta[i]);
                        }
                    }
                    assert forall|i: int| 0 <= i < m.len() implies stands_under(
                        d.sections,
                        #[trigger] m[i].line,
                        "meta"@,
                    ) by {
                        if i < d.meta.len() {
                            assert(m[i] == d.meta[i]);
                        }
                    }
                },
                Some(LineKindView::Formula { lhs, rhs }) => {
                    let m = d.formulas.push(crate::ast::FormulaView { lhs, rhs, line: n });
                    lemma_stands_under_last(d.sections, n);
                    assert forall|i: int, j: int| 0 <= i < j < m.len() implies #[trigger] m[i].line
                        < #[trigger] m[j].line by {
                        assert(m[i] == d.formulas[i]);
                        if j < d.formulas.len() {
                            assert(m[j] == d.formulas[j]);
                        }
                    }
                    assert forall|i: int| 0 <= i < m.len() implies #[trigger] m[i].line < n + 1 by {
                        if i < d.formulas.len() {
                            assert(m[i] == d.formulas[i]);
                        }
                    }
                    assert forall|i: int| 0 <= i < m.len() implies stands_under(
                        d.sections,
                        #[trigger] m[i].line,
                        "formula"@,
                    ) by {
                        if i < d.formulas.len() {
                            assert(m[i] == d.formulas[i]);
                        }
                    }
                },
                Some(LineKindView::Invariant { field, min, max }) => {
                    let m = d.invariants.push(crate::ast::InvariantView { field, min, max, line: n });
                    lemma_stands_under_last(d.sections, n);
                    assert forall|i: int, j: int| 0 <= i < j < m.len() implies #[trigger] m[i].line
                        < #[trigger] m[j].line by {
                        assert(m[i] == d.invariants[i]);
                        if j < d.invariants.len() {
                            assert(m[j] == d.invariants[j]);
                        }
                    }
                    assert forall|i: int| 0 <= i < m.len() implies #[trigger] m[i].line < n + 1 by {
                        if i < d.invariants.len() {
                            assert(m[i] == d.invariants[i]);
                        }
                    }
                    assert forall|i: int| 0 <= i < m.len() implies stands_under(
                        d.sections,
                        #[trigger] m[i].line,
                        "invariant"@,
                    ) by {
                        if i < d.invariants.len() {
                            assert(m[i] == d.invariants[i]);
                        }
                    }
                },
                Some(LineKindView::PipelineOp { name }) => {
                    let m = d.pipeline.push(crate::ast::PipelineOpView { name, line: n });
                    lemma_stands_under_last(d.sections, n);
                    assert forall|i: int, j: int| 0 <= i < j < m.len() implies #[trigger] m[i].line
                        < #[trigger] m[j].line by {
                        assert(m[i] == d.pipeline[i]);
                        if j < d.pipeline.len() {
                            assert(m[j] == d.pipeline[j]);
                        }
                    }
                    assert forall|i: int| 0 <= i < m.len() implies #[trigger] m[i].line < n + 1 by {
                        if i < d.pipeline.len() {
                            assert(m[i] == d.pipeline[i]);
                        }
                    }
                    assert forall|i: int| 0 <= i < m.len() implies stands_under(
                        d.sections,
                        #[trigger] m[i].line,
                        "pipeline"@,
                    ) by {
                        if i < d.pipeline.len() {
                            assert(m[i] == d.pipeline[i]);
                        }
                    }
                },
                None => {},
            }
        }
    }
}

proof fn lemma_parse_from_placed(st: ParseState, s: Seq<char>, i: int, line: nat)
    requires
        placement_state(st, line),
        0 <= i <= s.len(),
    ensures
        parse_from(st, s, i, line) matches Ok(fin) ==> entries_placed(fin.doc),
    decreases s.len() - i,
{
    lemma_find_from(s, i, '\n');
    lemma_parse_from_unfold(st, s, i, line);
    match find_from(s, i, '\n') {
        Some(k) => {
            lemma_line_step_placed(st, line, s.subrange(i, k));
            if let Ok(next) = line_step(st, line, s.subrange(i, k)) {
                lemma_parse_from_placed(next, s, k + 1, line + 1);
            }
        },
        None => {
            lemma_line_step_placed(st, line, s.subrange(i, s.len() as int));
        },
    }
}

/// In a parsed document, headers and the entries of each kind come in the
/// order of their lines, and every entry stands under the last header
/// before it, which opens the section of its kind.
pub proof fn law_parsed_entries_placed(s: Seq<char>)
    ensures
        parse_document_spec(s) matches Ok(doc) ==> entries_placed(doc),
{
    let init = ParseState { doc: empty_document(), current: None };
    lemma_parse_from_placed(init, s, 0, 1);
}

// ---------------------------------------------------------------------------
// Lines that follow

/// `d2` holds all that `d1` holds, in the same places, and perhaps more
/// after it.
pub open spec fn doc_extends(d1: DocumentView, d2: DocumentView) -> bool {
    &&& d1.sections.is_prefix_of(d2.sections)
    &&& d1.meta.is_prefix_of(d2.meta)
    &&& d1.formulas.is_prefix_of(d2.formulas)
    &&& d1.invariants.is_prefix_of(d2.invariants)
    &&& d1.pipeline.is_prefix_of(d2.pipeline)
}

proof fn lemma_prefix_trans<A>(x: Seq<A>, y: Seq<A>, z: Seq<A>)
    requires
        x.is_prefix_of(y),
        y.is_prefix_of(z),
    ensures
        x.is_prefix_of(z),
{
    assert forall|k: int| 0 <= k < x.len() implies x[k] == z[k] by {
        assert(x[k] == y.subrange(0, x.len() as int)[k]);
        assert(y[k] == z.subrange(0, y.len() as int)[k]);
    }
    assert(x =~= z.subrange(0, x.len() as int));
}

proof fn lemma_prefix_push<A>(x: Seq<A>, a: A)
    ensures
        x.is_prefix_of(x.push(a)),
{
    assert(x =~= x.push(a).subrange(0, x.len() as int));
}

proof fn lemma_prefix_refl<A>(x: Seq<A>)
    ensures
        x.is_prefix_of(x),
{
    assert(x =~= x.subrange(0, x.len() as int));
}

proof fn lemma_doc_extends_refl(d: DocumentView)
    ensures
        doc_extends(d, d),
{
    lemma_prefix_refl(d.sections);
    lemma_prefix_refl(d.meta);
    lemma_prefix_refl(d.formulas);
    lemma_prefix_refl(d.invariants);
    lemma_prefix_refl(d.pipeline);
}

proof fn lemma_doc_extends_trans(d1: DocumentView, d2: DocumentView, d3: DocumentView)
    requires
        doc_extends(d1, d2),
        doc_extends(d2, d3),
    ensures
        doc_extends(d1, d3),
{
    lemma_prefix_trans(d1.sections, d2.sections, d3.sections);
    lemma_prefix_trans(d1.meta, d2.meta, d3.meta);
    lemma_prefix_trans(d1.formulas, d2.formulas, d3.formulas);
    lemma_prefix_trans(d1.invariants, d2.invariants, d3.invariants);
    lemma_prefix_trans(d1.pipeline, d2.pipeline, d3.pipeline);
}

proof fn lemma_line_step_extends(st: ParseState, line: nat, raw: Seq<char>)
    ensures
        line_step(st, line, raw) matches Ok(next) ==> doc_extends(st.doc, next.doc),
{
    let d = st.doc;
    lemma_doc_extends_refl(d);
    let t = trim(raw);
    if t.len() > 0 {
        match classify_spec(t) {
            Some(LineKindView::Section { name }) => {
                lemma_prefix_push(d.sections, SectionView { name, line });
            },
            Some(LineKindView::KeyValue { key, value }) => {
                lemma_prefix_push(d.meta, crate::ast::KeyValueView { key, value, line });
            },
            Some(LineKindView::Formula { lhs, rhs }) => {
                lemma_prefix_push(d.formulas, crate::ast::FormulaView { lhs, rhs, line });
            },
            Some(LineKindView::Invariant { field, min, max }) => {
                lemma_prefix_push(d.invariants, crate::ast::InvariantView { field, min, max, line });
            },
            Some(LineKindView::PipelineOp { name }) => {
                lemma_prefix_push(d.pipeline, crate::ast::PipelineOpView { name, line });
            },
            None => {},
        }
    }
}

proof fn lemma_parse_from_extends(st: ParseState, s: Seq<char>, i: int, line: nat)
    requires
        0 <= i <= s.len(),
    ensures
        parse_from(st, s, i, line) matches Ok(fin) ==> doc_extends(st.doc, fin.doc),
    decreases s.len() - i,
{
    lemma_find_from(s, i, '\n');
    lemma_parse_from_unfold(st, s, i, line);
    match find_from(s, i, '\n') {
        Some(k) => {
            lemma_line_step_extends(st, line, s.subrange(i, k));
            if let Ok(next) = line_step(st, line, s.subrange(i, k)) {
                lemma_parse_from_extends(next, s, k + 1, line + 1);
                if let Ok(fin) = parse_from(next, s, k + 1, line + 1) {
                    lemma_doc_extends_trans(st.doc, next.doc, fin.doc);
                }
            }
        },
        None => {
            lemma_line_step_extends(st, line, s.subrange(i, s.len() as int));
        },
    }
}

/// In `s`, then a line break, then `r`, the first line break at or after a
/// position `i` inside `s` is the one of `s`, or the added one.
proof fn lemma_find_newline_extended(s: Seq<char>, r: Seq<char>, i: int)
    requires
        0 <= i <= s.len(),
    ensures
        find_from(s + seq!['\n'] + r, i, '\n') == match find_from(s, i, '\n') {
            Some(k) => Some(k),
            None => Some(s.len() as int),
        },
    decreases s.len() - i,
{
    let t = s + seq!['\n'] + r;
    if i < s.len() {
        assert(t[i] == s[i]);
        if s[i] != '\n' {
            lemma_find_newline_extended(s, r, i + 1);
        }
    } else {
        assert(t[i] == '\n');
    }
}

proof fn lemma_parse_from_prefix(st: ParseState, s: Seq<char>, r: Seq<char>, i: int, line: nat)
    requires
        0 <= i <= s.len(),
    ensures
        parse_from(st, s, i, line) matches Err(e) ==> parse_from(st, s + seq!['\n'] + r, i, line)
            == Err::<ParseState, ErrorView>(e),
        parse_from(st, s, i, line) matches Ok(fin) ==> (parse_from(st, s + seq!['\n'] + r, i, line) matches Ok(
            fin2,
        ) ==> doc_extends(fin.doc, fin2.doc)),
    decreases s.len() - i,
{
    let t = s + seq!['\n'] + r;
    lemma_find_from(s, i, '\n');
    lemma_find_newline_extended(s, r, i);
    lemma_parse_from_unfold(st, s, i, line);
    lemma_parse_from_unfold(st, t, i, line);
    match find_from(s, i, '\n') {
        Some(k) => {
            assert(t.subrange(i, k) =~= s.subrange(i, k));
            if let Ok(next) = line_step(st, line, s.subrange(i, k)) {
                lemma_parse_from_prefix(next, s, r, k + 1, line + 1);
            }
        },
        None => {
            assert(t.subrange(i, s.len() as int) =~= s.subrange(i, s.len() as int));
            if let Ok(next) = line_step(st, line, s.subrange(i, s.len() as int)) {
                lemma_parse_from_extends(next, t, s.len() + 1int, line + 1);
            }
        },
    }
}

/// More lines after a text do not change what its own lines give: where the
/// text fails, the longer text fails with the same error; where it parses,
/// the longer text either fails on a later line or parses to a document
/// that holds all of the shorter one's entries, in place, and perhaps more.
pub proof fn law_following_lines_keep_parse(s: Seq<char>, r: Seq<char>)
    ensures
        parse_document_spec(s) matches Err(e) ==> parse_document_spec(s + seq!['\n'] + r) == Err::<
            DocumentView,
            ErrorView,
        >(e),
        parse_document_spec(s) matches Ok(d) ==> (parse_document_spec(s + seq!['\n'] + r) matches Ok(
            d2,
        ) ==> doc_extends(d, d2)),
{
    let init = ParseState { doc: empty_document(), current: None };
    lemma_parse_from_prefix(init, s, r, 0, 1);
}

// ---------------------------------------------------------------------------
// What a validated document holds
proof fn lemma_meta_errors_none(kvs: Seq<crate::ast::KeyValueView>, n: nat)
    requires
        meta_errors(kvs, n) is None,
    ensures
        forall|i: int| 0 <= i < n ==> #[trigger] meta_error_at(kvs, i) is None,
    decreases n,
{
    if n > 0 {
        lemma_meta_errors_none(kvs, (n - 1) as nat);
    }
}

proof fn lemma_formula_errors_none(fs: Seq<crate::ast::FormulaView>, n: nat)
    requires
        formula_errors(fs, n) is None,
    ensures
        forall|i: int| 0 <= i < n ==> #[trigger] formula_error_at(fs, i) is None,
    decreases n,
{
    if n > 0 {
        lemma_formula_errors_none(fs, (n - 1) as nat);
    }
}

proof fn lemma_invariant_errors_none(
    ivs: Seq<crate::ast::InvariantView>,
    bounds: Seq<Option<(serde_json::Number, serde_json::Number)>>,
    n: nat,
)
    requires
        invariant_errors(ivs, bounds, n) is None,
    ensures
        forall|i: int| 0 <= i < n ==> #[trigger] invariant_error_at(ivs, bounds, i) is None,
    decreases n,
{
    if n > 0 {
        lemma_invariant_errors_none(ivs, bounds, (n - 1) as nat);
    }
}

proof fn lemma_pipeline_errors_none(ops: Seq<crate::ast::PipelineOpView>, n: nat)
    requires
        pipeline_errors(ops, n) is None,
    ensures
        forall|i: int| 0 <= i < n ==> #[trigger] pipeline_error_at(ops, i) is None,
    decreases n,
{
    if n > 0 {
        lemma_pipeline_errors_none(ops, (n - 1) as nat);
    }
}

/// A document that validates has a `meta` and a `pipeline` section and at
/// least one formula; its meta keys are distinct; every formula assigns an
/// allowed variable and its right-hand side is a valid expression over the
/// allowed variables; every invariant bounds an allowed variable and its
/// bounds are number literals that read as a range; every operation is registered.
pub proof fn law_validated_document_is_strict(
    doc: DocumentView,
    bounds: Seq<Option<(serde_json::Number, serde_json::Number)>>,
)
    ensures
        validate_spec(doc, bounds) is Ok ==> {
            &&& section_opened(doc.sections, "meta"@)
            &&& section_opened(doc.sections, "pipeline"@)
            &&& doc.formulas.len() > 0
            &&& keys_distinct(meta_pairs(doc.meta))
            &&& forall|i: int|
                0 <= i < doc.formulas.len() ==> allowed_variable_names().contains(
                    #[trigger] doc.formulas[i].lhs,
                ) && expression_outcome(doc.formulas[i].rhs, allowed_variable_names()) is Ok
            &&& forall|i: int|
                0 <= i < doc.invariants.len() ==> allowed_variable_names().contains(
                    #[trigger] doc.invariants[i].field,
                ) && number_literal_spec(doc.invariants[i].min) is Some && number_literal_spec(
                    doc.invariants[i].max,
                ) is Some && bounds[i] is Some
            &&& forall|i: int|
                0 <= i < doc.pipeline.len() ==> allowed_op_names().contains(
                    #[trigger] doc.pipeline[i].name,
                )
        },
{
    if validate_spec(doc, bounds) is Ok {
        lemma_meta_errors_none(doc.meta, doc.meta.len());
        lemma_formula_errors_none(doc.formulas, doc.formulas.len());
        lemma_invariant_errors_none(doc.invariants, bounds, doc.invariants.len());
        lemma_pipeline_errors_none(doc.pipeline, doc.pipeline.len());
        let m = meta_pairs(doc.meta);
        assert forall|i: int, j: int|
            0 <= i < m.len() && 0 <= j < m.len() && i != j implies #[trigger] m[i].0 != #[trigger] m[j].0 by {
            if i < j {
                assert(meta_error_at(doc.meta, j) is None);
                if m[i].0 == m[j].0 {
                    assert(doc.meta[i].key == doc.meta[j].key);
                }
            } else {
                assert(meta_error_at(doc.meta, i) is None);
                if m[i].0 == m[j].0 {
                    assert(doc.meta[j].key == doc.meta[i].key);
                }
            }
        }
        assert forall|i: int| 0 <= i < doc.formulas.len() implies allowed_variable_names().contains(
            #[trigger] doc.formulas[i].lhs,
        ) && expression_outcome(doc.formulas[i].rhs, allowed_variable_names()) is Ok by {
            assert(formula_error_at(doc.formulas, i) is None);
        }
        assert forall|i: int| 0 <= i < doc.invariants.len() implies allowed_variable_names().contains(
            #[trigger] doc.invariants[i].field,
        ) && number_literal_spec(doc.invariants[i].min) is Some && number_literal_spec(
            doc.invariants[i].max,
        ) is Some && bounds[i] is Some by {
            assert(invariant_error_at(doc.invariants, bounds, i) is None);
        }
        assert forall|i: int| 0 <= i < doc.pipeline.len() implies allowed_op_names().contains(
            #[trigger] doc.pipeline[i].name,
        ) by {
            assert(pipeline_error_at(doc.pipeline, i) is None);
        }
    }
}

/// The meta map of a validated document gives back, for each meta entry of
/// the document, the value written with its key.
pub proof fn law_meta_reads_back(
    doc: DocumentView,
    bounds: Seq<Option<(serde_json::Number, serde_json::Number)>>,
    i: int,
)
    requires
        0 <= i < doc.meta.len(),
    ensures
        validate_spec(doc, bounds) matches Ok(v) ==> v.meta.contains_key(doc.meta[i].key)
            && v.meta[doc.meta[i].key] == doc.meta[i].value,
{
    if validate_spec(doc, bounds) is Ok {
        law_validated_document_is_strict(doc, bounds);
        let m = meta_pairs(doc.meta);
        lemma_pairs_map_at(m, i);
    }
}

/// Validation keeps the document's order: the contract has one formula per
/// formula of the document, each with the same target and right-hand side
/// in the same place; one invariant per invariant, on the same variable; and
/// one operation name per pipeline line, in the same order.
pub proof fn law_validated_entries_keep_document_order(
    doc: DocumentView,
    bounds: Seq<Option<(serde_json::Number, serde_json::Number)>>,
)
    ensures
        validate_spec(doc, bounds) matches Ok(v) ==> {
            &&& v.formulas.len() == doc.formulas.len()
            &&& forall|i: int|
                0 <= i < doc.formulas.len() ==> #[trigger] v.formulas[i].lhs == doc.formulas[i].lhs
                    && v.formulas[i].rhs == doc.formulas[i].rhs
            &&& v.invariants.len() == doc.invariants.len()
            &&& forall|i: int|
                0 <= i < doc.invariants.len() ==> #[trigger] v.invariants[i].field
                    == doc.invariants[i].field
            &&& v.pipeline.len() == doc.pipeline.len()
            &&& forall|i: int|
                0 <= i < doc.pipeline.len() ==> #[trigger] v.pipeline[i] == doc.pipeline[i].name
        },
{
}

// ---------------------------------------------------------------------------
// Variables of a valid expression

/// Every identifier in the tree `e` names one of the variables `a`.
pub open spec fn names_allowed(e: ExprTree, a: Seq<Seq<char>>) -> bool
    decreases e,
{
    match e {
        ExprTree::Ident(name) => a.contains(name),
        ExprTree::Number(_) => true,
        ExprTree::Unary { operand, .. } => names_allowed(*operand, a),
        ExprTree::Binary { lhs, rhs, .. } => names_allowed(*lhs, a) && names_allowed(*rhs, a),
        ExprTree::Paren(inner) => names_allowed(*inner, a),
    }
}

/// What each grammar rule gives back on success: a tree whose identifiers
/// are all in `a`, and a position between `i` and the end.
pub open spec fn sound_outcome(r: ParseOutcome, t: Seq<Token>, a: Seq<Seq<char>>, i: int) -> bool {
    r matches Ok((e, j)) ==> i <= j <= t.len() && names_allowed(e, a)
}

proof fn lemma_additive(t: Seq<Token>, a: Seq<Seq<char>>, i: int)
    requires
        0 <= i <= t.len(),
    ensures
        sound_outcome(p_additive(t, a, i), t, a, i),
    decreases t.len() - i, 6int,
{
    lemma_multiplicative(t, a, i);
    if let Ok((lhs, j)) = p_multiplicative(t, a, i) {
        lemma_additive_rest(t, a, j, lhs);
    }
}

proof fn lemma_additive_rest(t: Seq<Token>, a: Seq<Seq<char>>, j: int, acc: ExprTree)
    requires
        0 <= j <= t.len(),
        names_allowed(acc, a),
    ensures
        sound_outcome(p_additive_rest(t, a, j, acc), t, a, j),
    decreases t.len() - j, 5int,
{
    if 0 <= j < t.len() && is_additive_op(t[j]) {
        lemma_multiplicative(t, a, j + 1);
        if let Ok((rhs, k)) = p_multiplicative(t, a, j + 1) {
            lemma_additive_rest(t, a, k, binary(binary_op_of(t[j]), acc, rhs));
        }
    }
}

proof fn lemma_multiplicative(t: Seq<Token>, a: Seq<Seq<char>>, i: int)
    requires
        0 <= i <= t.len(),
    ensures
        sound_outcome(p_multiplicative(t, a, i), t, a, i),
    decreases t.len() - i, 4int,
{
    lemma_unary(t, a, i);
    if let Ok((lhs, j)) = p_unary(t, a, i) {
        lemma_multiplicative_rest(t, a, j, lhs);
    }
}

proof fn lemma_multiplicative_rest(t: Seq<Token>, a: Seq<Seq<char>>, j: int, acc: ExprTree)
    requires
        0 <= j <= t.len(),
        names_allowed(acc, a),
    ensures
        sound_outcome(p_multiplicative_rest(t, a, j, acc), t, a, j),
    decreases t.len() - j, 3int,
{
    if 0 <= j < t.len() && is_multiplicative_op(t[j]) {
        lemma_unary(t, a, j + 1);
        if let Ok((rhs, k)) = p_unary(t, a, j + 1) {
            lemma_multiplicative_rest(t, a, k, binary(binary_op_of(t[j]), acc, rhs));
        }
    }
}

proof fn lemma_unary(t: Seq<Token>, a: Seq<Seq<char>>, i: int)
    requires
        0 <= i <= t.len(),
    ensures
        sound_outcome(p_unary(t, a, i), t, a, i),
    decreases t.len() - i, 2int,
{
    if 0 <= i < t.len() && is_additive_op(t[i]) {
        lemma_unary(t, a, i + 1);
    } else {
        lemma_power(t, a, i);
    }
}

proof fn lemma_power(t: Seq<Token>, a: Seq<Seq<char>>, i: int)
    requires
        0 <= i <= t.len(),
    ensures
        sound_outcome(p_power(t, a, i), t, a, i),
    decreases t.len() - i, 1int,
{
    lemma_primary(t, a, i);
    if let Ok((_, j)) = p_primary(t, a, i) {
        if i <= j < t.len() && t[j] is Caret {
            lemma_unary(t, a, j + 1);
        }
    }
}

proof fn lemma_primary(t: Seq<Token>, a: Seq<Seq<char>>, i: int)
    requires
        0 <= i <= t.len(),
    ensures
        sound_outcome(p_primary(t, a, i), t, a, i),
    decreases t.len() - i, 0int,
{
    if 0 <= i < t.len() {
        if t[i] is LParen {
            lemma_additive(t, a, i + 1);
        }
    }
}

/// Every identifier in the tree of an expression that passes the check is
/// one of the allowed variables.
pub proof fn law_valid_expression_names_allowed_variables(s: Seq<char>, a: Seq<Seq<char>>)
    ensures
        expression_outcome(s, a) matches Ok(tree) ==> names_allowed(tree, a),
{
    if let Some(t) = lex_from(s, 0) {
        lemma_additive(t, a, 0);
    }
}

// ---------------------------------------------------------------------------
// More allowed variables

/// Every variable of `a` is one of `b`.
pub open spec fn names_within(a: Seq<Seq<char>>, b: Seq<Seq<char>>) -> bool {
    forall|n: Seq<char>| a.contains(n) ==> #[trigger] b.contains(n)
}

/// A rule that succeeds over `a` succeeds over `b` the same way.
pub open spec fn kept_over(r: ParseOutcome, q: ParseOutcome) -> bool {
    r is Ok ==> q == r
}

proof fn lemma_wider_additive(t: Seq<Token>, a: Seq<Seq<char>>, b: Seq<Seq<char>>, i: int)
    requires
        names_within(a, b),
    ensures
        kept_over(p_additive(t, a, i), p_additive(t, b, i)),
    decreases t.len() - i, 6int,
{
    lemma_wider_multiplicative(t, a, b, i);
    if let Ok((lhs, j)) = p_multiplicative(t, a, i) {
        if i <= j <= t.len() {
            lemma_wider_additive_rest(t, a, b, j, lhs);
        }
    }
}

proof fn lemma_wider_additive_rest(
    t: Seq<Token>,
    a: Seq<Seq<char>>,
    b: Seq<Seq<char>>,
    j: int,
    acc: ExprTree,
)
    requires
        names_within(a, b),
    ensures
        kept_over(p_additive_rest(t, a, j, acc), p_additive_rest(t, b, j, acc)),
    decreases t.len() - j, 5int,
{
    if 0 <= j < t.len() && is_additive_op(t[j]) {
        lemma_wider_multiplicative(t, a, b, j + 1);
        if let Ok((rhs, k)) = p_multiplicative(t, a, j + 1) {
            if j + 1 <= k <= t.len() {
                lemma_wider_additive_rest(t, a, b, k, binary(binary_op_of(t[j]), acc, rhs));
            }
        }
    }
}

proof fn lemma_wider_multiplicative(t: Seq<Token>, a: Seq<Seq<char>>, b: Seq<Seq<char>>, i: int)
    requires
        names_within(a, b),
    ensures
        kept_over(p_multiplicative(t, a, i), p_multiplicative(t, b, i)),
    decreases t.len() - i, 4int,
{
    lemma_wider_unary(t, a, b, i);
    if let Ok((lhs, j)) = p_unary(t, a, i) {
        if i <= j <= t.len() {
            lemma_wider_multiplicative_rest(t, a, b, j, lhs);
        }
    }
}

proof fn lemma_wider_multiplicative_rest(
    t: Seq<Token>,
    a: Seq<Seq<char>>,
    b: Seq<Seq<char>>,
    j: int,
    acc: ExprTree,
)
    requires
        names_within(a, b),
    ensures
        kept_over(p_multiplicative_rest(t, a, j, acc), p_multiplicative_rest(t, b, j, acc)),
    decreases t.len() - j, 3int,
{
    if 0 <= j < t.len() && is_multiplicative_op(t[j]) {
        lemma_wider_unary(t, a, b, j + 1);
        if let Ok((rhs, k)) = p_unary(t, a, j + 1) {
            if j + 1 <= k <= t.len() {
                lemma_wider_multiplicative_rest(t, a, b, k, binary(binary_op_of(t[j]), acc, rhs));
            }
        }
    }
}

proof fn lemma_wider_unary(t: Seq<Token>, a: Seq<Seq<char>>, b: Seq<Seq<char>>, i: int)
    requires
        names_within(a, b),
    ensures
        kept_over(p_unary(t, a, i), p_unary(t, b, i)),
    decreases t.len() - i, 2int,
{
    if 0 <= i < t.len() && is_additive_op(t[i]) {
        lemma_wider_unary(t, a, b, i + 1);
    } else {
        lemma_wider_power(t, a, b, i);
    }
}

proof fn lemma_wider_power(t: Seq<Token>, a: Seq<Seq<char>>, b: Seq<Seq<char>>, i: int)
    requires
        names_within(a, b),
    ensures
        kept_over(p_power(t, a, i), p_power(t, b, i)),
    decreases t.len() - i, 1int,
{
    lemma_wider_primary(t, a, b, i);
    if let Ok((_, j)) = p_primary(t, a, i) {
        if i <= j < t.len() && t[j] is Caret {
            lemma_wider_unary(t, a, b, j + 1);
        }
    }
}

proof fn lemma_wider_primary(t: Seq<Token>, a: Seq<Seq<char>>, b: Seq<Seq<char>>, i: int)
    requires
        names_within(a, b),
    ensures
        kept_over(p_primary(t, a, i), p_primary(t, b, i)),
    decreases t.len() - i, 0int,
{
    if 0 <= i < t.len() {
        if t[i] is LParen {
            lemma_wider_additive(t, a, b, i + 1);
        }
    }
}

/// Allowing more variables never rejects an expression: one that passes the
/// check with the variables `a` passes it with any `b` that holds them all,
/// and gives the same tree.
pub proof fn law_more_variables_keep_expressions(s: Seq<char>, a: Seq<Seq<char>>, b: Seq<Seq<char>>)
    requires
        names_within(a, b),
    ensures
        expression_outcome(s, a) is Ok ==> expression_outcome(s, b) == expression_outcome(s, a),
{
    if let Some(t) = lex_from(s, 0) {
        lemma_wider_additive(t, a, b, 0);
    }
}

// ---------------------------------------------------------------------------
// Precedence

/// How tightly a tree's top node binds: a sum or difference 0, a product,
/// quotient or remainder 1, a signed operand 2, a power 3, and an
/// identifier, number or parenthesised expression 4.
pub open spec fn tier(e: ExprTree) -> int {
    match e {
        ExprTree::Binary { op, .. } => if op is Add || op is Sub {
            0
        } else if op is Pow {
            3
        } else {
            1
        },
        ExprTree::Unary { .. } => 2,
        _ => 4,
    }
}

/// Every node of `e` groups as the precedence rules say: an operand of `*`,
/// `/` or `%` is never an unparenthesised sum or difference, and its right
/// operand is never a product either (they group to the left); the right
/// operand of `+` or `-` is never a sum or difference; the base of `^` is an
/// identifier, number or parenthesised expression and its exponent may be
/// signed; a sign applies to a signed operand, a power or an atom.
pub open spec fn grouped(e: ExprTree) -> bool
    decreases e,
{
    match e {
        ExprTree::Ident(_) => true,
        ExprTree::Number(_) => true,
        ExprTree::Paren(inner) => grouped(*inner),
        ExprTree::Unary { operand, .. } => tier(*operand) >= 2 && grouped(*operand),
        ExprTree::Binary { op, lhs, rhs } => grouped(*lhs) && grouped(*rhs) && if op is Add
            || op is Sub {
            tier(*rhs) >= 1
        } else if op is Pow {
            tier(*lhs) == 4 && tier(*rhs) >= 2
        } else {
            tier(*lhs) >= 1 && tier(*rhs) >= 2
        },
    }
}

/// A rule's tree, where it succeeds, is grouped and binds at least as
/// tightly as `min`.
pub open spec fn shaped(r: ParseOutcome, min: int) -> bool {
    r matches Ok((e, _)) ==> grouped(e) && tier(e) >= min
}

proof fn lemma_grouped_additive(t: Seq<Token>, a: Seq<Seq<char>>, i: int)
    ensures
        shaped(p_additive(t, a, i), 0),
    decreases t.len() - i, 6int,
{
    lemma_grouped_multiplicative(t, a, i);
    if let Ok((lhs, j)) = p_multiplicative(t, a, i) {
        if i <= j <= t.len() {
            lemma_grouped_additive_rest(t, a, j, lhs);
        }
    }
}

proof fn lemma_grouped_additive_rest(t: Seq<Token>, a: Seq<Seq<char>>, j: int, acc: ExprTree)
    requires
        grouped(acc),
    ensures
        shaped(p_additive_rest(t, a, j, acc), 0),
    decreases t.len() - j, 5int,
{
    if 0 <= j < t.len() && is_additive_op(t[j]) {
        lemma_grouped_multiplicative(t, a, j + 1);
        if let Ok((rhs, k)) = p_multiplicative(t, a, j + 1) {
            if j + 1 <= k <= t.len() {
                lemma_grouped_additive_rest(t, a, k, binary(binary_op_of(t[j]), acc, rhs));
            }
        }
    }
}

proof fn lemma_grouped_multiplicative(t: Seq<Token>, a: Seq<Seq<char>>, i: int)
    ensures
        shaped(p_multiplicative(t, a, i), 1),
    decreases t.len() - i, 4int,
{
    lemma_grouped_unary(t, a, i);
    if let Ok((lhs, j)) = p_unary(t, a, i) {
        if i <= j <= t.len() {
            lemma_grouped_multiplicative_rest(t, a, j, lhs);
        }
    }
}

proof fn lemma_grouped_multiplicative_rest(t: Seq<Token>, a: Seq<Seq<char>>, j: int, acc: ExprTree)
    requires
        grouped(acc),
        tier(acc) >= 1,
    ensures
        shaped(p_multiplicative_rest(t, a, j, acc), 1),
    decreases t.len() - j, 3int,
{
    if 0 <= j < t.len() && is_multiplicative_op(t[j]) {
        lemma_grouped_unary(t, a, j + 1);
        if let Ok((rhs, k)) = p_unary(t, a, j + 1) {
            if j + 1 <= k <= t.len() {
                lemma_grouped_multiplicative_rest(t, a, k, binary(binary_op_of(t[j]), acc, rhs));
            }
        }
    }
}

proof fn lemma_grouped_unary(t: Seq<Token>, a: Seq<Seq<char>>, i: int)
    ensures
        shaped(p_unary(t, a, i), 2),
    decreases t.len() - i, 2int,
{
    if 0 <= i < t.len() && is_additive_op(t[i]) {
        lemma_grouped_unary(t, a, i + 1);
    } else {
        lemma_grouped_power(t, a, i);
    }
}

proof fn lemma_grouped_power(t: Seq<Token>, a: Seq<Seq<char>>, i: int)
    ensures
        shaped(p_power(t, a, i), 2),
    decreases t.len() - i, 1int,
{
    lemma_grouped_primary(t, a, i);
    if let Ok((_, j)) = p_primary(t, a, i) {
        if i <= j < t.len() && t[j] is Caret {
            lemma_grouped_unary(t, a, j + 1);
        }
    }
}

proof fn lemma_grouped_primary(t: Seq<Token>, a: Seq<Seq<char>>, i: int)
    ensures
        shaped(p_primary(t, a, i), 4),
    decreases t.len() - i, 0int,
{
    if 0 <= i < t.len() {
        if t[i] is LParen {
            lemma_grouped_additive(t, a, i + 1);
        }
    }
}

/// The tree of every expression that passes the check respects precedence
/// and grouping (`grouped`): `*`, `/` and `%` bind tighter than `+` and `-`,
/// all four group to the left, `^` binds tightest and groups to the right,
/// and a sign applies to what follows it up to the next `*`, `/`, `%`, `+`
/// or `-`.
pub proof fn law_expression_trees_respect_precedence(s: Seq<char>, a: Seq<Seq<char>>)
    ensures
        expression_outcome(s, a) matches Ok(tree) ==> grouped(tree),
{
    if let Some(t) = lex_from(s, 0) {
        lemma_grouped_additive(t, a, 0);
    }
}

// ---------------------------------------------------------------------------
// Signed operands

/// The right operand of `*`, `/` or `%` may carry a sign, as an operand at
/// the start of an expression may: for every allowed variable `x`, number
/// `d`, such operator and sign, `x op sign d` parses whole, to `x` combined
/// by the operator with the signed number.
pub proof fn law_signed_operand_after_product(
    a: Seq<Seq<char>>,
    x: Seq<char>,
    d: Seq<char>,
    op: Token,
    sign: Token,
)
    requires
        a.contains(x),
        is_multiplicative_op(op),
        is_additive_op(sign),
    ensures
        p_additive(seq![Token::Ident(x), op, sign, Token::Number(d)], a, 0) == Ok::<
            (ExprTree, int),
            (ExprError, int),
        >(
            (
                binary(
                    binary_op_of(op),
                    ExprTree::Ident(x),
                    ExprTree::Unary {
                        sign: unary_op_of(sign),
                        operand: Box::new(ExprTree::Number(d)),
                    },
                ),
                4,
            ),
        ),
{
    let t = seq![Token::Ident(x), op, sign, Token::Number(d)];
    let xt = ExprTree::Ident(x);
    let signed = ExprTree::Unary { sign: unary_op_of(sign), operand: Box::new(ExprTree::Number(d)) };
    let whole = binary(binary_op_of(op), xt, signed);
    assert(p_primary(t, a, 0) == Ok::<(ExprTree, int), (ExprError, int)>((xt, 1)));
    assert(p_power(t, a, 0) == Ok::<(ExprTree, int), (ExprError, int)>((xt, 1)));
    assert(p_unary(t, a, 0) == Ok::<(ExprTree, int), (ExprError, int)>((xt, 1)));
    assert(p_primary(t, a, 3) == Ok::<(ExprTree, int), (ExprError, int)>((ExprTree::Number(d), 4)));
    assert(p_power(t, a, 3) == Ok::<(ExprTree, int), (ExprError, int)>((ExprTree::Number(d), 4)));
    assert(p_unary(t, a, 3) == Ok::<(ExprTree, int), (ExprError, int)>((ExprTree::Number(d), 4)));
    assert(p_unary(t, a, 2) == Ok::<(ExprTree, int), (ExprError, int)>((signed, 4)));
    assert(p_multiplicative_rest(t, a, 4, whole) == Ok::<(ExprTree, int), (ExprError, int)>((whole, 4)));
    assert(p_multiplicative_rest(t, a, 1, xt) == Ok::<(ExprTree, int), (ExprError, int)>((whole, 4)));
    assert(p_multiplicative(t, a, 0) == Ok::<(ExprTree, int), (ExprError, int)>((whole, 4)));
    assert(p_additive_rest(t, a, 4, whole) == Ok::<(ExprTree, int), (ExprError, int)>((whole, 4)));
}

/// In a text that starts with the identifier `x` followed by a space, the
/// identifier characters from `i` on run to the end of `x`.
proof fn lemma_ident_span(s: Seq<char>, x: Seq<char>, i: int)
    requires
        spec_is_ident(x),
        x.len() < s.len(),
        s.subrange(0, x.len() as int) == x,
        s[x.len() as int] == ' ',
        1 <= i <= x.len(),
    ensures
        span_end(s, i, CharClass::IdentContinue) == x.len(),
    decreases x.len() - i,
{
    if i < x.len() {
        assert(s[i] == x[i]);
        lemma_ident_span(s, x, i + 1);
    }
}

/// The text `x op -1`, for an allowed variable `x` and `op` one of `*`, `/`
/// and `%`, passes the check: it is `x` combined by the operator with the
/// negated number 1.
pub proof fn law_product_with_negative_number(a: Seq<Seq<char>>, x: Seq<char>, c: char)
    requires
        a.contains(x),
        spec_is_ident(x),
        c == '*' || c == '/' || c == '%',
    ensures
        ({
            let op = if c == '*' {
                BinaryOp::Mul
            } else if c == '/' {
                BinaryOp::Div
            } else {
                BinaryOp::Rem
            };
            expression_outcome(x + seq![' ', c, ' ', '-', '1'], a) == Ok::<ExprTree, ExprError>(
                binary(
                    op,
                    ExprTree::Ident(x),
                    ExprTree::Unary {
                        sign: UnaryOp::Minus,
                        operand: Box::new(ExprTree::Number(seq!['1'])),
                    },
                ),
            )
        }),
{
    let s = x + seq![' ', c, ' ', '-', '1'];
    let n = x.len() as int;
    assert(s.subrange(0, n) =~= x);
    assert(s[n] == ' ');
    assert(s[n + 1] == c);
    assert(s[n + 2] == ' ');
    assert(s[n + 3] == '-');
    assert(s[n + 4] == '1');
    assert(s.len() == n + 5);
    lemma_ident_span(s, x, 1);
    let op_tok = operator_token(c).unwrap();
    // The tokens, from the end backwards.
    assert(lex_from(s, n + 5) == Some(Seq::<Token>::empty()));
    assert(span_end(s, n + 5, CharClass::Digit) == n + 5);
    assert(span_end(s, n + 4, CharClass::Digit) == n + 5);
    assert(decimal_end(s, n + 4) == Some(n + 5));
    assert(s.subrange(n + 4, n + 5) =~= seq!['1']);
    assert(lex_from(s, n + 4) == Some(seq![Token::Number(seq!['1'])]));
    assert(lex_from(s, n + 3) == Some(seq![Token::Minus] + seq![Token::Number(seq!['1'])]));
    assert(lex_from(s, n + 2) == lex_from(s, n + 3));
    assert(lex_from(s, n + 1) == Some(
        seq![op_tok] + (seq![Token::Minus] + seq![Token::Number(seq!['1'])]),
    ));
    assert(lex_from(s, n) == lex_from(s, n + 1));
    assert(s[0] == x[0]);
    let t = seq![Token::Ident(x), op_tok, Token::Minus, Token::Number(seq!['1'])];
    assert(lex_from(s, 0) == Some(t)) by {
        assert(seq![Token::Ident(s.subrange(0, n))] + (seq![op_tok] + (seq![Token::Minus] + seq![
            Token::Number(seq!['1']),
        ])) =~= t);
    }
    law_signed_operand_after_product(a, x, seq!['1'], op_tok, Token::Minus);
}

} // verus!
