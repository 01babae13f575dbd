//! Classification of single document lines.
use vstd::prelude::*;
use crate::chars::{
    all_ws, all_ws_range, copy_range, find_char, find_from, is_ident_range, lemma_find_from,
    range_eq_str, range_to_string, scan, span_end, spec_ident_continue,
    spec_ident_start, spec_is_ident, str_chars, trim, trim_range, CharClass,
};

pub use crate::expr::validate_expression;
pub use crate::number::{classify_number_literal, NumberLiteral};

verus! {

/// What a non-empty line of a document is.
#[derive(Debug, Clone, PartialEq, Eq)]
pub enum LineKind {
    Section { name: String },
    KeyValue { key: String, value: String },
    Formula { lhs: String, rhs: String },
    Invariant { field: String, min: String, max: String },
    PipelineOp { name: String },
}

pub enum LineKindView {
    Section { name: Seq<char> },
    KeyValue { key: Seq<char>, value: Seq<char> },
    Formula { lhs: Seq<char>, rhs: Seq<char> },
    Invariant { field: Seq<char>, min: Seq<char>, max: Seq<char> },
    PipelineOp { name: Seq<char> },
}

impl View for LineKind {
    type V = LineKindView;

    open spec fn view(&self) -> LineKindView {
        match self {
            LineKind::Section { name } => LineKindView::Section { name: name@ },
            LineKind::KeyValue { key, value } => LineKindView::KeyValue { key: key@, value: value@ },
            LineKind::Formula { lhs, rhs } => LineKindView::Formula { lhs: lhs@, rhs: rhs@ },
            LineKind::Invariant { field, min, max } => LineKindView::Invariant {
                field: field@,
                min: min@,
                max: max@,
            },
            LineKind::PipelineOp { name } => LineKindView::PipelineOp { name: name@ },
        }
    }
}

/// `s.split_once(c)`: the text before and after the first `c`.
pub open spec fn split_once(s: Seq<char>, c: char) -> Option<(Seq<char>, Seq<char>)> {
    match find_from(s, 0, c) {
        Some(k) => Some((s.subrange(0, k), s.subrange(k + 1, s.len() as int))),
        None => None,
    }
}

/// `section: <identifier>`.
pub open spec fn section_header_spec(s: Seq<char>) -> Option<Seq<char>> {
    match split_once(s, ':') {
        Some((left, right)) => if trim(left) == "section"@ && spec_is_ident(trim(right)) {
            Some(trim(right))
        } else {
            None
        },
        None => None,
    }
}

/// `<identifier>: <identifier>`.
pub open spec fn key_value_spec(s: Seq<char>) -> Option<(Seq<char>, Seq<char>)> {
    match split_once(s, ':') {
        Some((left, right)) => if spec_is_ident(trim(left)) && spec_is_ident(trim(right)) {
            Some((trim(left), trim(right)))
        } else {
            None
        },
        None => None,
    }
}

/// `<identifier> = <anything>`.
pub open spec fn formula_spec(s: Seq<char>) -> Option<(Seq<char>, Seq<char>)> {
    match split_once(s, '=') {
        Some((left, right)) => if spec_is_ident(trim(left)) {
            Some((trim(left), trim(right)))
        } else {
            None
        },
        None => None,
    }
}

/// `op <identifier>`: exactly two white-space separated words, the first `op`.
pub open spec fn pipeline_spec(s: Seq<char>) -> Option<Seq<char>> {
    let a = span_end(s, 0, CharClass::Space);
    let e = span_end(s, a, CharClass::NonSpace);
    let rest = trim(s.subrange(e, s.len() as int));
    if s.subrange(a, e) == "op"@ && spec_is_ident(rest) {
        Some(rest)
    } else {
        None
    }
}

/// `<identifier> in [<min>, <max>]`, where the word `in` stands apart from its
/// neighbours, `min` is what lies between `[` and the first comma after it and
/// `max` what lies between that comma and the first `]` after it, and only
/// white space follows the `]`.
pub open spec fn invariant_spec(s: Seq<char>) -> Option<(Seq<char>, Seq<char>, Seq<char>)> {
    if s.len() == 0 || !spec_ident_start(s[0]) {
        None
    } else {
        let e = span_end(s, 1, CharClass::IdentContinue);
        let c = span_end(s, e, CharClass::Space);
        if !(c + 2 <= s.len() && s[c] == 'i' && s[c + 1] == 'n') {
            None
        } else if spec_ident_continue(s[c - 1]) {
            None
        } else if c + 2 < s.len() && spec_ident_continue(s[c + 2]) {
            None
        } else {
            let d = span_end(s, c + 2, CharClass::Space);
            if !(d < s.len() && s[d] == '[') {
                None
            } else {
                match find_from(s, d + 1, ',') {
                    None => None,
                    Some(k) => match find_from(s, k + 1, ']') {
                        None => None,
                        Some(m) => if all_ws(s.subrange(m + 1, s.len() as int)) {
                            Some((s.subrange(0, e), trim(s.subrange(d + 1, k)), trim(s.subrange(k + 1, m))))
                        } else {
                            None
                        },
                    },
                }
            }
        }
    }
}

/// What `line` is, tried in this order: a section header, a formula, an
/// invariant, a pipeline operation, a meta entry.  `None` for a blank line
/// and for a line that is none of them.
pub open spec fn classify_spec(line: Seq<char>) -> Option<LineKindView> {
    let t = trim(line);
    if t.len() == 0 {
        None
    } else {
        match section_header_spec(t) {
            Some(name) => Some(LineKindView::Section { name }),
            None => match formula_spec(t) {
                Some((lhs, rhs)) => Some(LineKindView::Formula { lhs, rhs }),
                None => match invariant_spec(t) {
                    Some((field, min, max)) => Some(LineKindView::Invariant { field, min, max }),
                    None => match pipeline_spec(t) {
                        Some(name) => Some(LineKindView::PipelineOp { name }),
                        None => match key_value_spec(t) {
                            Some((key, value)) => Some(LineKindView::KeyValue { key, value }),
                            None => None,
                        },
                    },
                },
            },
        }
    }
}

/// `_` or an ASCII letter.
pub fn is_ident_start(ch: char) -> (r: bool)
    ensures
        r == spec_ident_start(ch),
{
    ch == '_' || ('a' <= ch && ch <= 'z') || ('A' <= ch && ch <= 'Z')
}

/// An identifier start or an ASCII digit.
pub fn is_ident_continue(ch: char) -> (r: bool)
    ensures
        r == spec_ident_continue(ch),
{
    is_ident_start(ch) || ('0' <= ch && ch <= '9')
}

/// Whether `text` is an identifier: an identifier start followed by
/// identifier characters.
pub fn is_identifier(text: &str) -> (r: bool)
    ensures
        r == spec_is_ident(text@),
{
    let chars = str_chars(text);
    assert(chars@.subrange(0, chars@.len() as int) =~= chars@);
    is_ident_range(&chars, 0, chars.len())
}

/// The two sides of the first `c` in `s`.
fn split_once_at(s: &Vec<char>, c: char) -> (r: Option<usize>)
    ensures
        r matches Some(k) ==> k < s.len() && split_once(s@, c) == Some(
            (s@.subrange(0, k as int), s@.subrange(k + 1, s@.len() as int)),
        ),
        r is None ==> split_once(s@, c) is None,
{
    let r = find_char(s, 0, c);
    proof {
        lemma_find_from(s@, 0, c);
    }
    r
}

fn parse_section_header(line: &Vec<char>) -> (r: Option<String>)
    ensures
        r matches Some(n) ==> section_header_spec(line@) == Some(n@),
        r is None ==> section_header_spec(line@) is None,
{
    let k = split_once_at(line, ':')?;
    let (a, b) = trim_range(line, 0, k);
    if !range_eq_str(line, a, b, "section") {
        return None;
    }
    let (c, d) = trim_range(line, k + 1, line.len());
    if !is_ident_range(line, c, d) {
        return None;
    }
    Some(range_to_string(line, c, d))
}

fn parse_key_value(line: &Vec<char>) -> (r: Option<(String, String)>)
    ensures
        r matches Some((k, v)) ==> key_value_spec(line@) == Some((k@, v@)),
        r is None ==> key_value_spec(line@) is None,
{
    let k = split_once_at(line, ':')?;
    let (a, b) = trim_range(line, 0, k);
    let (c, d) = trim_range(line, k + 1, line.len());
    if !is_ident_range(line, a, b) || !is_ident_range(line, c, d) {
        return None;
    }
    Some((range_to_string(line, a, b), range_to_string(line, c, d)))
}

fn parse_formula(line: &Vec<char>) -> (r: Option<(String, String)>)
    ensures
        r matches Some((l, rhs)) ==> formula_spec(line@) == Some((l@, rhs@)),
        r is None ==> formula_spec(line@) is None,
{
    let k = split_once_at(line, '=')?;
    let (a, b) = trim_range(line, 0, k);
    if !is_ident_range(line, a, b) {
        return None;
    }
    let (c, d) = trim_range(line, k + 1, line.len());
    Some((range_to_string(line, a, b), range_to_string(line, c, d)))
}

/// The end of the identifier that starts at `cursor`, if one does.
fn take_identifier(line: &Vec<char>, cursor: usize) -> (r: Option<usize>)
    requires
        cursor <= line.len(),
    ensures
        r matches Some(e) ==> cursor < line.len() && spec_ident_start(line@[cursor as int]) && e
            == span_end(line@, cursor + 1, CharClass::IdentContinue) && cursor < e <= line.len(),
        r is None ==> cursor == line.len() || !spec_ident_start(line@[cursor as int]),
{
    if cursor >= line.len() || !is_ident_start(line[cursor]) {
        return None;
    }
    Some(scan(line, cursor + 1, CharClass::IdentContinue))
}

/// The position after the white space that starts at `cursor`.
fn skip_ws(line: &Vec<char>, cursor: usize) -> (e: usize)
    requires
        cursor <= line.len(),
    ensures
        e == span_end(line@, cursor as int, CharClass::Space),
        cursor <= e <= line.len(),
{
    scan(line, cursor, CharClass::Space)
}

/// Whether `word` stands at `cursor`, apart from the identifier characters
/// around it.
fn consume_word(line: &Vec<char>, cursor: usize, word: &str) -> (r: bool)
    requires
        cursor <= line.len(),
    ensures
        r == (cursor + word@.len() <= line.len() && line@.subrange(
            cursor as int,
            cursor + word@.len(),
        ) == word@ && !(cursor > 0 && spec_ident_continue(line@[cursor - 1])) && !(cursor
            + word@.len() < line.len() && spec_ident_continue(line@[cursor + word@.len()]))),
{
    let n = word.unicode_len();
    if line.len() - cursor < n || !range_eq_str(line, cursor, cursor + n, word) {
        return false;
    }
    let end = cursor + n;
    if cursor > 0 && is_ident_continue(line[cursor - 1]) {
        return false;
    }
    if end < line.len() && is_ident_continue(line[end]) {
        return false;
    }
    true
}

/// Whether `expected` stands at `cursor`.
fn consume_char(line: &Vec<char>, cursor: usize, expected: char) -> (r: bool)
    requires
        cursor <= line.len(),
    ensures
        r == (cursor < line.len() && line@[cursor as int] == expected),
{
    cursor < line.len() && line[cursor] == expected
}

fn parse_invariant(line: &Vec<char>) -> (r: Option<(String, String, String)>)
    ensures
        r matches Some((f, a, b)) ==> invariant_spec(line@) == Some((f@, a@, b@)),
        r is None ==> invariant_spec(line@) is None,
{
    let e = take_identifier(line, 0)?;
    let c = skip_ws(line, e);
    proof {
        reveal_strlit("in");
        assert("in"@.len() == 2);
        if c + 2 <= line@.len() {
            if line@[c as int] == 'i' && line@[c + 1] == 'n' {
                assert(line@.subrange(c as int, c + 2) =~= "in"@);
            }
            if line@.subrange(c as int, c + 2) == "in"@ {
                assert(line@.subrange(c as int, c + 2)[0] == 'i');
                assert(line@.subrange(c as int, c + 2)[1] == 'n');
            }
        }
    }
    if !consume_word(line, c, "in") {
        return None;
    }
    let d = skip_ws(line, c + 2);
    if !consume_char(line, d, '[') {
        return None;
    }
    let k = find_char(line, d + 1, ',')?;
    proof {
        lemma_find_from(line@, d + 1, ',');
    }
    let m = find_char(line, k + 1, ']')?;
    proof {
        lemma_find_from(line@, k + 1, ']');
    }
    if !all_ws_range(line, m + 1, line.len()) {
        return None;
    }
    let (a1, b1) = trim_range(line, d + 1, k);
    let (a2, b2) = trim_range(line, k + 1, m);
    Some((range_to_string(line, 0, e), range_to_string(line, a1, b1), range_to_string(line, a2, b2)))
}

fn parse_pipeline(line: &Vec<char>) -> (r: Option<String>)
    ensures
        r matches Some(n) ==> pipeline_spec(line@) == Some(n@),
        r is None ==> pipeline_spec(line@) is None,
{
    let a = scan(line, 0, CharClass::Space);
    let e = scan(line, a, CharClass::NonSpace);
    if !range_eq_str(line, a, e, "op") {
        return None;
    }
    let (c, d) = trim_range(line, e, line.len());
    if !is_ident_range(line, c, d) {
        return None;
    }
    Some(range_to_string(line, c, d))
}

/// Classifies a line given as characters.
pub fn classify_chars(line: &Vec<char>) -> (r: Option<LineKind>)
    ensures
        r matches Some(k) ==> classify_spec(line@) == Some(k@),
        r is None ==> classify_spec(line@) is None,
{
    assert(line@.subrange(0, line@.len() as int) =~= line@);
    let (a, b) = trim_range(line, 0, line.len());
    if a == b {
        return None;
    }
    let t = copy_range(line, a, b);
    assert(t@ == trim(line@));
    if let Some(name) = parse_section_header(&t) {
        return Some(LineKind::Section { name });
    }
    if let Some((lhs, rhs)) = parse_formula(&t) {
        return Some(LineKind::Formula { lhs, rhs });
    }
    if let Some((field, min, max)) = parse_invariant(&t) {
        return Some(LineKind::Invariant { field, min, max });
    }
    if let Some(name) = parse_pipeline(&t) {
        return Some(LineKind::PipelineOp { name });
    }
    if let Some((key, value)) = parse_key_value(&t) {
        return Some(LineKind::KeyValue { key, value });
    }
    None
}

/// Classifies one line of a document; see `classify_spec`.
pub fn classify_line(line: &str) -> (r: Option<LineKind>)
    ensures
        r matches Some(k) ==> classify_spec(line@) == Some(k@),
        r is None ==> classify_spec(line@) is None,
{
    let chars = str_chars(line);
    classify_chars(&chars)
}

} // verus!
