//! Parsing a whole document into its syntax tree.
use vstd::prelude::*;
use crate::ast::{
    empty_document, CompileError, DocumentAst, DocumentView, ErrorCode, ErrorView, Formula,
    FormulaView, Invariant, InvariantView, KeyValue, KeyValueView, PipelineOp, PipelineOpView,
    Section, SectionView,
};
use crate::chars::{copy_range, find_char, find_from, lemma_find_from, str_chars, str_eq, trim, trim_range};
use crate::lexer::{classify_chars, classify_spec, LineKind, LineKindView};

verus! {

/// What the parser knows after some lines: the document so far and the
/// section that the last header opened.
pub struct ParseState {
    pub doc: DocumentView,
    pub current: Option<Seq<char>>,
}

/// The four sections a document may have.
pub open spec fn allowed_section(name: Seq<char>) -> bool {
    name == "meta"@ || name == "formula"@ || name == "invariant"@ || name == "pipeline"@
}

/// Whether a section of this name was already opened.
pub open spec fn section_opened(sections: Seq<SectionView>, name: Seq<char>) -> bool {
    exists|i: int| 0 <= i < sections.len() && #[trigger] sections[i].name == name
}

pub open spec fn syntax_error(line: nat) -> ErrorView {
    ErrorView { code: ErrorCode::InvalidSyntax, message: "syntax error"@, line: Some(line) }
}

pub open spec fn unknown_field_error(line: nat, section: Seq<char>) -> ErrorView {
    ErrorView {
        code: ErrorCode::UnknownField,
        message: "field not allowed in section `"@ + section + "`"@,
        line: Some(line),
    }
}

/// A line that belongs in section `wanted` while `current` is open.
pub open spec fn section_check(current: Option<Seq<char>>, wanted: Seq<char>, line: nat) -> Option<
    ErrorView,
> {
    match current {
        None => Some(syntax_error(line)),
        Some(sec) => if sec != wanted {
            Some(unknown_field_error(line, sec))
        } else {
            None
        },
    }
}

/// The effect of line number `line` with text `raw`.
pub open spec fn line_step(st: ParseState, line: nat, raw: Seq<char>) -> Result<ParseState, ErrorView> {
    let t = trim(raw);
    if t.len() == 0 {
        Ok(st)
    } else {
        match classify_spec(t) {
            None => Err(syntax_error(line)),
            Some(LineKindView::Section { name }) => if !allowed_section(name) {
                Err(
                    ErrorView {
                        code: ErrorCode::UnknownSection,
                        message: "section not allowed"@,
                        line: Some(line),
                    },
                )
            } else if section_opened(st.doc.sections, name) {
                Err(
                    ErrorView {
                        code: ErrorCode::DuplicateSection,
                        message: "section already defined: "@ + name,
                        line: Some(line),
                    },
                )
            } else {
                Ok(
                    ParseState {
                        doc: DocumentView {
                            sections: st.doc.sections.push(SectionView { name, line }),
                            ..st.doc
                        },
                        current: Some(name),
                    },
                )
            },
            Some(LineKindView::KeyValue { key, value }) => match section_check(
                st.current,
                "meta"@,
                line,
            ) {
                Some(e) => Err(e),
                None => Ok(
                    ParseState {
                        doc: DocumentView {
                            meta: st.doc.meta.push(KeyValueView { key, value, line }),
                            ..st.doc
                        },
                        ..st
                    },
                ),
            },
            Some(LineKindView::Formula { lhs, rhs }) => match section_check(
                st.current,
                "formula"@,
                line,
            ) {
                Some(e) => Err(e),
                None => Ok(
                    ParseState {
                        doc: DocumentView {
                            formulas: st.doc.formulas.push(FormulaView { lhs, rhs, line }),
                            ..st.doc
                        },
                        ..st
                    },
                ),
            },
            Some(LineKindView::Invariant { field, min, max }) => match section_check(
                st.current,
                "invariant"@,
                line,
            ) {
                Some(e) => Err(e),
                None => Ok(
                    ParseState {
                        doc: DocumentView {
                            invariants: st.doc.invariants.push(
                                InvariantView { field, min, max, line },
                            ),
                            ..st.doc
                        },
                        ..st
                    },
                ),
            },
            Some(LineKindView::PipelineOp { name }) => match section_check(
                st.current,
                "pipeline"@,
                line,
            ) {
                Some(e) => Err(e),
                None => Ok(
                    ParseState {
                        doc: DocumentView {
                            pipeline: st.doc.pipeline.push(PipelineOpView { name, line }),
                            ..st.doc
                        },
                        ..st
                    },
                ),
            },
        }
    }
}

/// The lines of `s` from position `i` on, numbered from `line`, applied to
/// `st` one after the other; the first error ends the parse.
pub open spec fn parse_from(st: ParseState, s: Seq<char>, i: int, line: nat) -> Result<
    ParseState,
    ErrorView,
>
    decreases s.len() - i,
{
    if i < 0 || i > s.len() {
        Ok(st)
    } else {
        match find_from(s, i, '\n') {
            Some(k) => if i <= k < s.len() {
                match line_step(st, line, s.subrange(i, k)) {
                    Err(e) => Err(e),
                    Ok(next) => parse_from(next, s, k + 1, line + 1),
                }
            } else {
                Ok(st)
            },
            None => line_step(st, line, s.subrange(i, s.len() as int)),
        }
    }
}

/// The document that the text `s` holds: its lines, split at `\n` and
/// numbered from 1, parsed in order from the empty document.
pub open spec fn parse_document_spec(s: Seq<char>) -> Result<DocumentView, ErrorView> {
    match parse_from(ParseState { doc: empty_document(), current: None }, s, 0, 1) {
        Ok(st) => Ok(st.doc),
        Err(e) => Err(e),
    }
}

/// The characters of an optional string.
pub open spec fn opt_view(o: &Option<String>) -> Option<Seq<char>> {
    match o {
        Some(s) => Some(s@),
        None => None,
    }
}

proof fn lemma_section_names_distinct()
    ensures
        "meta"@ != "formula"@,
        "meta"@ != "invariant"@,
        "meta"@ != "pipeline"@,
        "formula"@ != "invariant"@,
        "formula"@ != "pipeline"@,
        "invariant"@ != "pipeline"@,
{
    reveal_strlit("meta");
    reveal_strlit("formula");
    reveal_strlit("invariant");
    reveal_strlit("pipeline");
    assert("meta"@.len() == 4);
    assert("formula"@.len() == 7);
    assert("invariant"@.len() == 9);
    assert("pipeline"@.len() == 8);
    assert("formula"@[0] != "pipeline"@[0]);
}

pub proof fn lemma_section_opened_push(sections: Seq<SectionView>, sec: SectionView, name: Seq<char>)
    ensures
        section_opened(sections.push(sec), name) == (section_opened(sections, name) || sec.name
            == name),
{
    let s2 = sections.push(sec);
    if section_opened(sections, name) {
        let i = choose|i: int| 0 <= i < sections.len() && #[trigger] sections[i].name == name;
        assert(s2[i] == sections[i]);
    }
    if sec.name == name {
        assert(s2[sections.len() as int] == sec);
    }
    if section_opened(s2, name) {
        let i = choose|i: int| 0 <= i < s2.len() && #[trigger] s2[i].name == name;
        if i < sections.len() {
            assert(s2[i] == sections[i]);
        }
    }
}

pub proof fn lemma_parse_from_unfold(st: ParseState, s: Seq<char>, i: int, line: nat)
    requires
        0 <= i <= s.len(),
    ensures
        find_from(s, i, '\n') matches Some(k) ==> parse_from(st, s, i, line) == match line_step(
            st,
            line,
            s.subrange(i, k),
        ) {
            Err(e) => Err(e),
            Ok(next) => parse_from(next, s, k + 1, line + 1),
        },
        find_from(s, i, '\n') is None ==> parse_from(st, s, i, line) == line_step(
            st,
            line,
            s.subrange(i, s.len() as int),
        ),
{
    lemma_find_from(s, i, '\n');
}

fn section_seen(
    name: &str,
    seen_meta: bool,
    seen_formula: bool,
    seen_invariant: bool,
    seen_pipeline: bool,
) -> (r: bool)
    ensures
        r == ((name@ == "meta"@ && seen_meta) || (name@ == "formula"@ && seen_formula) || (name@
            == "invariant"@ && seen_invariant) || (name@ == "pipeline"@ && seen_pipeline)),
{
    proof {
        lemma_section_names_distinct();
    }
    if str_eq(name, "meta") {
        seen_meta
    } else if str_eq(name, "formula") {
        seen_formula
    } else if str_eq(name, "invariant") {
        seen_invariant
    } else if str_eq(name, "pipeline") {
        seen_pipeline
    } else {
        false
    }
}

fn mark_seen(
    name: &str,
    seen_meta: &mut bool,
    seen_formula: &mut bool,
    seen_invariant: &mut bool,
    seen_pipeline: &mut bool,
)
    ensures
        *final(seen_meta) == (*old(seen_meta) || name@ == "meta"@),
        *final(seen_formula) == (*old(seen_formula) || name@ == "formula"@),
        *final(seen_invariant) == (*old(seen_invariant) || name@ == "invariant"@),
        *final(seen_pipeline) == (*old(seen_pipeline) || name@ == "pipeline"@),
{
    proof {
        lemma_section_names_distinct();
    }
    if str_eq(name, "meta") {
        *seen_meta = true;
    } else if str_eq(name, "formula") {
        *seen_formula = true;
    } else if str_eq(name, "invariant") {
        *seen_invariant = true;
    } else if str_eq(name, "pipeline") {
        *seen_pipeline = true;
    }
}

fn is_allowed_section(name: &str) -> (r: bool)
    ensures
        r == allowed_section(name@),
{
    str_eq(name, "meta") || str_eq(name, "formula") || str_eq(name, "invariant") || str_eq(
        name,
        "pipeline",
    )
}

fn invalid_syntax(line: usize) -> (e: CompileError)
    ensures
        e@ == syntax_error(line as nat),
{
    CompileError::new(ErrorCode::InvalidSyntax, "syntax error", Some(line))
}

fn unknown_field(line: usize, section: &str) -> (e: CompileError)
    ensures
        e@ == unknown_field_error(line as nat, section@),
{
    let mut message = String::from_str("field not allowed in section `");
    message.append(section);
    message.append("`");
    CompileError { code: ErrorCode::UnknownField, message, line: Some(line) }
}

/// The error for a line that belongs in section `wanted`, if it is misplaced.
fn check_section(current: &Option<String>, wanted: &str, line: usize) -> (r: Option<CompileError>)
    ensures
        r matches Some(e) ==> section_check(
            opt_view(current),
            wanted@,
            line as nat,
        ) == Some(e@),
        r is None ==> section_check(
            opt_view(current),
            wanted@,
            line as nat,
        ) is None,
{
    match current {
        None => Some(invalid_syntax(line)),
        Some(section) => if !str_eq(section.as_str(), wanted) {
            Some(unknown_field(line, section.as_str()))
        } else {
            None
        },
    }
}

/// The parser's state while it reads the lines of a document.
struct DocParser {
    document: DocumentAst,
    current_section: Option<String>,
    seen_meta: bool,
    seen_formula: bool,
    seen_invariant: bool,
    seen_pipeline: bool,
}

impl DocParser {
    spec fn state(&self) -> ParseState {
        ParseState { doc: self.document@, current: opt_view(&self.current_section) }
    }

    /// The flags record which sections were opened, and only allowed
    /// sections were.
    spec fn wf(&self) -> bool {
        &&& self.seen_meta == section_opened(self.document@.sections, "meta"@)
        &&& self.seen_formula == section_opened(self.document@.sections, "formula"@)
        &&& self.seen_invariant == section_opened(self.document@.sections, "invariant"@)
        &&& self.seen_pipeline == section_opened(self.document@.sections, "pipeline"@)
        &&& forall|i: int|
            0 <= i < self.document@.sections.len() ==> #[trigger] allowed_section(
                self.document@.sections[i].name,
            )
    }

    fn new() -> (p: Self)
        ensures
            p.wf(),
            p.state() == (ParseState { doc: empty_document(), current: None }),
    {
        DocParser {
            document: DocumentAst::default(),
            current_section: None,
            seen_meta: false,
            seen_formula: false,
            seen_invariant: false,
            seen_pipeline: false,
        }
    }

    /// Applies the line `chars[lo..hi]`, number `line_no`.
    fn apply_line(&mut self, chars: &Vec<char>, lo: usize, hi: usize, line_no: usize) -> (r: Result<
        (),
        CompileError,
    >)
        requires
            old(self).wf(),
            lo <= hi <= chars.len(),
        ensures
            line_step(old(self).state(), line_no as nat, chars@.subrange(lo as int, hi as int))
                matches Ok(next) ==> r is Ok && final(self).state() == next,
            line_step(old(self).state(), line_no as nat, chars@.subrange(lo as int, hi as int))
                matches Err(e) ==> r matches Err(x) && x@ == e,
            r is Ok ==> final(self).wf(),
    {
        let ghost st = self.state();
        let ghost raw = chars@.subrange(lo as int, hi as int);
        let ghost ln = line_no as nat;
        let (a, b) = trim_range(chars, lo, hi);
        if a == b {
            return Ok(());
        }
        let line = copy_range(chars, a, b);
        assert(line@ == trim(raw));
        let kind = match classify_chars(&line) {
            Some(kind) => kind,
            None => {
                return Err(invalid_syntax(line_no));
            },
        };
        match kind {
            LineKind::Section { name } => {
                if !is_allowed_section(name.as_str()) {
                    return Err(
                        CompileError::new(
                            ErrorCode::UnknownSection,
                            "section not allowed",
                            Some(line_no),
                        ),
                    );
                }
                proof {
                    lemma_section_names_distinct();
                }
                if section_seen(
                    name.as_str(),
                    self.seen_meta,
                    self.seen_formula,
                    self.seen_invariant,
                    self.seen_pipeline,
                ) {
                    let mut message = String::from_str("section already defined: ");
                    message.append(name.as_str());
                    return Err(
                        CompileError { code: ErrorCode::DuplicateSection, message, line: Some(line_no) },
                    );
                }
                proof {
                    if section_opened(st.doc.sections, name@) {
                        let i = choose|i: int|
                            0 <= i < st.doc.sections.len() && #[trigger] st.doc.sections[i].name
                                == name@;
                        assert(allowed_section(st.doc.sections[i].name));
                    }
                }
                mark_seen(
                    name.as_str(),
                    &mut self.seen_meta,
                    &mut self.seen_formula,
                    &mut self.seen_invariant,
                    &mut self.seen_pipeline,
                );
                let ghost sec = SectionView { name: name@, line: ln };
                self.current_section = Some(name.clone());
                self.document.sections.push(Section { name, line: line_no });
                proof {
                    assert(self.document@ =~= DocumentView {
                        sections: st.doc.sections.push(sec),
                        ..st.doc
                    });
                    lemma_section_opened_push(st.doc.sections, sec, "meta"@);
                    lemma_section_opened_push(st.doc.sections, sec, "formula"@);
                    lemma_section_opened_push(st.doc.sections, sec, "invariant"@);
                    lemma_section_opened_push(st.doc.sections, sec, "pipeline"@);
                    assert forall|i: int|
                        0 <= i < self.document@.sections.len() implies #[trigger] allowed_section(
                        self.document@.sections[i].name,
                    ) by {
                        if i < st.doc.sections.len() {
                            assert(self.document@.sections[i] == st.doc.sections[i]);
                        }
                    }
                }
            },
            LineKind::KeyValue { key, value } => {
                if let Some(e) = check_section(&self.current_section, "meta", line_no) {
                    return Err(e);
                }
                let ghost kv = KeyValueView { key: key@, value: value@, line: ln };
                self.document.meta.push(KeyValue { key, value, line: line_no });
                assert(self.document@ =~= DocumentView { meta: st.doc.meta.push(kv), ..st.doc });
            },
            LineKind::Formula { lhs, rhs } => {
                if let Some(e) = check_section(&self.current_section, "formula", line_no) {
                    return Err(e);
                }
                let ghost f = FormulaView { lhs: lhs@, rhs: rhs@, line: ln };
                self.document.formulas.push(Formula { lhs, rhs, line: line_no });
                assert(self.document@ =~= DocumentView {
                    formulas: st.doc.formulas.push(f),
                    ..st.doc
                });
            },
            LineKind::Invariant { field, min, max } => {
                if let Some(e) = check_section(&self.current_section, "invariant", line_no) {
                    return Err(e);
                }
                let ghost iv = InvariantView { field: field@, min: min@, max: max@, line: ln };
                self.document.invariants.push(Invariant { field, min, max, line: line_no });
                assert(self.document@ =~= DocumentView {
                    invariants: st.doc.invariants.push(iv),
                    ..st.doc
                });
            },
            LineKind::PipelineOp { name } => {
                if let Some(e) = check_section(&self.current_section, "pipeline", line_no) {
                    return Err(e);
                }
                let ghost op = PipelineOpView { name: name@, line: ln };
                self.document.pipeline.push(PipelineOp { name, line: line_no });
                assert(self.document@ =~= DocumentView {
                    pipeline: st.doc.pipeline.push(op),
                    ..st.doc
                });
            },
        }
        assert(line_step(st, ln, raw) == Ok::<ParseState, ErrorView>(self.state()));
        assert(self.wf());
        Ok(())
    }
}

/// Parses a document: each line is blank, a section header, or an entry of
/// the section opened last; see `parse_document_spec`.
pub fn parse_document(input: &str) -> (r: Result<DocumentAst, CompileError>)
    requires
        input@.len() < usize::MAX,
    ensures
        r matches Ok(d) ==> parse_document_spec(input@) == Ok::<DocumentView, ErrorView>(d@),
        r matches Err(e) ==> parse_document_spec(input@) == Err::<DocumentView, ErrorView>(e@),
{
    let chars = str_chars(input);
    let mut parser = DocParser::new();
    let mut pos: usize = 0;
    let mut line_no: usize = 1;
    let ghost s = chars@;
    loop
        invariant
            s == chars@,
            s == input@,
            s.len() < usize::MAX,
            pos <= s.len(),
            1 <= line_no <= pos + 1,
            parser.wf(),
            parse_from(ParseState { doc: empty_document(), current: None }, s, 0, 1) == parse_from(
                parser.state(),
                s,
                pos as int,
                line_no as nat,
            ),
        decreases s.len() - pos,
    {
        let newline = find_char(&chars, pos, '\n');
        proof {
            lemma_find_from(s, pos as int, '\n');
            lemma_parse_from_unfold(parser.state(), s, pos as int, line_no as nat);
        }
        let end = match newline {
            Some(k) => k,
            None => chars.len(),
        };
        parser.apply_line(&chars, pos, end, line_no)?;
        match newline {
            Some(k) => {
                pos = k + 1;
                line_no = line_no + 1;
            },
            None => {
                return Ok(parser.document);
            },
        }
    }
}

} // verus!
