//! Formula right-hand sides: tokens, the expression grammar, and the syntax
//! trees it builds.
//!
//! ```text
//! additive       := multiplicative (("+" | "-") multiplicative)*
//! multiplicative := unary (("*" | "/" | "%") unary)*
//! unary          := ("+" | "-")* power
//! power          := primary ("^" unary)?
//! primary        := identifier | number | "(" additive ")"
//! ```
use vstd::prelude::*;
use crate::ast::{CompileError, ErrorCode, ErrorView};
use crate::chars::{
    is_digit, is_whitespace, lemma_span_end_bounds, range_to_string, scan, span_end,
    spec_ident_start, spec_is_digit, spec_is_ws, str_chars, str_eq, CharClass,
};
use crate::lexer::is_ident_start;
use crate::number::{consume_expr_number, decimal_end};

verus! {

#[derive(Debug, Clone, PartialEq, Eq)]
enum ExprTokenKind {
    Ident(String),
    Number(String),
    Plus,
    Minus,
    Star,
    Slash,
    Percent,
    Caret,
    LParen,
    RParen,
}

#[derive(Debug, Clone, PartialEq, Eq)]
struct ExprToken {
    kind: ExprTokenKind,
}

#[derive(Debug, Clone, Copy, PartialEq, Eq, Structural)]
enum ExprTokenClass {
    Ident,
    Number,
    Plus,
    Minus,
    Star,
    Slash,
    Percent,
    Caret,
    LParen,
    RParen,
}

/// A token of a formula's right-hand side.
pub enum Token {
    Ident(Seq<char>),
    Number(Seq<char>),
    Plus,
    Minus,
    Star,
    Slash,
    Percent,
    Caret,
    LParen,
    RParen,
}

impl View for ExprTokenKind {
    type V = Token;

    closed spec fn view(&self) -> Token {
        match self {
            ExprTokenKind::Ident(n) => Token::Ident(n@),
            ExprTokenKind::Number(n) => Token::Number(n@),
            ExprTokenKind::Plus => Token::Plus,
            ExprTokenKind::Minus => Token::Minus,
            ExprTokenKind::Star => Token::Star,
            ExprTokenKind::Slash => Token::Slash,
            ExprTokenKind::Percent => Token::Percent,
            ExprTokenKind::Caret => Token::Caret,
            ExprTokenKind::LParen => Token::LParen,
            ExprTokenKind::RParen => Token::RParen,
        }
    }
}

spec fn tokens_view(v: Seq<ExprToken>) -> Seq<Token> {
    v.map_values(|t: ExprToken| t.kind@)
}

/// The token that a single operator character stands for.
pub open spec fn operator_token(c: char) -> Option<Token> {
    if c == '+' {
        Some(Token::Plus)
    } else if c == '-' {
        Some(Token::Minus)
    } else if c == '*' {
        Some(Token::Star)
    } else if c == '/' {
        Some(Token::Slash)
    } else if c == '%' {
        Some(Token::Percent)
    } else if c == '^' {
        Some(Token::Caret)
    } else if c == '(' {
        Some(Token::LParen)
    } else if c == ')' {
        Some(Token::RParen)
    } else {
        None
    }
}

/// The tokens of `s` from position `i` on, or `None` where a character fits
/// no token or a number is cut short.  White space separates tokens;
/// identifiers and numbers take as many characters as they can.
pub open spec fn lex_from(s: Seq<char>, i: int) -> Option<Seq<Token>>
    decreases s.len() - i,
{
    if i < 0 || i >= s.len() {
        Some(Seq::empty())
    } else if spec_is_ws(s[i]) {
        lex_from(s, i + 1)
    } else if spec_ident_start(s[i]) {
        let e = span_end(s, i + 1, CharClass::IdentContinue);
        if i < e <= s.len() {
            match lex_from(s, e) {
                Some(rest) => Some(seq![Token::Ident(s.subrange(i, e))] + rest),
                None => None,
            }
        } else {
            None
        }
    } else if spec_is_digit(s[i]) {
        match decimal_end(s, i) {
            Some(e) => if i < e <= s.len() {
                match lex_from(s, e) {
                    Some(rest) => Some(seq![Token::Number(s.subrange(i, e))] + rest),
                    None => None,
                }
            } else {
                None
            },
            None => None,
        }
    } else {
        match operator_token(s[i]) {
            Some(t) => match lex_from(s, i + 1) {
                Some(rest) => Some(seq![t] + rest),
                None => None,
            },
            None => None,
        }
    }
}

/// An operator between two operands.
#[derive(Debug, Clone, Copy, PartialEq, Eq, Structural)]
pub enum BinaryOp {
    Add,
    Sub,
    Mul,
    Div,
    Rem,
    Pow,
}

/// A sign in front of an operand.
#[derive(Debug, Clone, Copy, PartialEq, Eq, Structural)]
pub enum UnaryOp {
    Plus,
    Minus,
}

/// The syntax tree of a formula's right-hand side.
#[derive(Debug, PartialEq, Eq)]
pub enum Expr {
    Ident(String),
    Number(String),
    Unary { sign: UnaryOp, operand: Box<Expr> },
    Binary { op: BinaryOp, lhs: Box<Expr>, rhs: Box<Expr> },
    Paren(Box<Expr>),
}

/// The model of `Expr`: the same tree with the text as characters.
pub enum ExprTree {
    Ident(Seq<char>),
    Number(Seq<char>),
    Unary { sign: UnaryOp, operand: Box<ExprTree> },
    Binary { op: BinaryOp, lhs: Box<ExprTree>, rhs: Box<ExprTree> },
    Paren(Box<ExprTree>),
}

impl View for Expr {
    type V = ExprTree;

    open spec fn view(&self) -> ExprTree
        decreases self,
    {
        match self {
            Expr::Ident(n) => ExprTree::Ident(n@),
            Expr::Number(n) => ExprTree::Number(n@),
            Expr::Unary { sign, operand } => ExprTree::Unary {
                sign: *sign,
                operand: Box::new((**operand).view()),
            },
            Expr::Binary { op, lhs, rhs } => ExprTree::Binary {
                op: *op,
                lhs: Box::new((**lhs).view()),
                rhs: Box::new((**rhs).view()),
            },
            Expr::Paren(inner) => ExprTree::Paren(Box::new((**inner).view())),
        }
    }
}

/// Why an expression is rejected.
pub enum ExprError {
    Malformed,
    UnknownVariable(Seq<char>),
}

/// The outcome of parsing: the tree and the position after what was
/// parsed, or the first error met and the position the parse stopped at
/// (past a rejected identifier, at a token that does not fit).
pub type ParseOutcome = Result<(ExprTree, int), (ExprError, int)>;

pub open spec fn is_additive_op(t: Token) -> bool {
    t is Plus || t is Minus
}

pub open spec fn is_multiplicative_op(t: Token) -> bool {
    t is Star || t is Slash || t is Percent
}

/// The operator that an operator token stands for between two operands.
pub open spec fn binary_op_of(t: Token) -> BinaryOp {
    match t {
        Token::Plus => BinaryOp::Add,
        Token::Minus => BinaryOp::Sub,
        Token::Star => BinaryOp::Mul,
        Token::Slash => BinaryOp::Div,
        Token::Percent => BinaryOp::Rem,
        _ => BinaryOp::Pow,
    }
}

/// The sign that a `+` or `-` token stands for in front of an operand.
pub open spec fn unary_op_of(t: Token) -> UnaryOp {
    if t is Minus {
        UnaryOp::Minus
    } else {
        UnaryOp::Plus
    }
}

/// `lhs op rhs`.
pub open spec fn binary(op: BinaryOp, lhs: ExprTree, rhs: ExprTree) -> ExprTree {
    ExprTree::Binary { op, lhs: Box::new(lhs), rhs: Box::new(rhs) }
}

/// `additive` at `i`.
pub open spec fn p_additive(t: Seq<Token>, a: Seq<Seq<char>>, i: int) -> ParseOutcome
    decreases t.len() - i, 6int,
{
    match p_multiplicative(t, a, i) {
        Err(e) => Err(e),
        Ok((lhs, j)) => if i <= j <= t.len() {
            p_additive_rest(t, a, j, lhs)
        } else {
            Err((ExprError::Malformed, i))
        },
    }
}

/// The `(("+" | "-") multiplicative)*` part of `additive` from `j` on, where
/// `acc` is the tree of what came before; the operators group to the left.
pub open spec fn p_additive_rest(t: Seq<Token>, a: Seq<Seq<char>>, j: int, acc: ExprTree) -> ParseOutcome
    decreases t.len() - j, 5int,
{
    if 0 <= j < t.len() && is_additive_op(t[j]) {
        match p_multiplicative(t, a, j + 1) {
            Err(e) => Err(e),
            Ok((rhs, k)) => if j + 1 <= k <= t.len() {
                p_additive_rest(t, a, k, binary(binary_op_of(t[j]), acc, rhs))
            } else {
                Err((ExprError::Malformed, j))
            },
        }
    } else {
        Ok((acc, j))
    }
}

/// `multiplicative` at `i`.
pub open spec fn p_multiplicative(t: Seq<Token>, a: Seq<Seq<char>>, i: int) -> ParseOutcome
    decreases t.len() - i, 4int,
{
    match p_unary(t, a, i) {
        Err(e) => Err(e),
        Ok((lhs, j)) => if i <= j <= t.len() {
            p_multiplicative_rest(t, a, j, lhs)
        } else {
            Err((ExprError::Malformed, i))
        },
    }
}

/// The `(("*" | "/" | "%") unary)*` part of `multiplicative` from `j` on,
/// where `acc` is the tree of what came before.
pub open spec fn p_multiplicative_rest(
    t: Seq<Token>,
    a: Seq<Seq<char>>,
    j: int,
    acc: ExprTree,
) -> ParseOutcome
    decreases t.len() - j, 3int,
{
    if 0 <= j < t.len() && is_multiplicative_op(t[j]) {
        match p_unary(t, a, j + 1) {
            Err(e) => Err(e),
            Ok((rhs, k)) => if j + 1 <= k <= t.len() {
                p_multiplicative_rest(t, a, k, binary(binary_op_of(t[j]), acc, rhs))
            } else {
                Err((ExprError::Malformed, j))
            },
        }
    } else {
        Ok((acc, j))
    }
}

/// `unary` at `i`: each sign wraps what follows it.
pub open spec fn p_unary(t: Seq<Token>, a: Seq<Seq<char>>, i: int) -> ParseOutcome
    decreases t.len() - i, 2int,
{
    if 0 <= i < t.len() && is_additive_op(t[i]) {
        match p_unary(t, a, i + 1) {
            Err(e) => Err(e),
            Ok((operand, j)) => Ok(
                (ExprTree::Unary { sign: unary_op_of(t[i]), operand: Box::new(operand) }, j),
            ),
        }
    } else {
        p_power(t, a, i)
    }
}

/// `power` at `i`; `^` groups to the right.
pub open spec fn p_power(t: Seq<Token>, a: Seq<Seq<char>>, i: int) -> ParseOutcome
    decreases t.len() - i, 1int,
{
    match p_primary(t, a, i) {
        Err(e) => Err(e),
        Ok((base, j)) => if i <= j <= t.len() {
            if j < t.len() && t[j] is Caret {
                match p_unary(t, a, j + 1) {
                    Err(e) => Err(e),
                    Ok((exponent, k)) => Ok((binary(BinaryOp::Pow, base, exponent), k)),
                }
            } else {
                Ok((base, j))
            }
        } else {
            Err((ExprError::Malformed, i))
        },
    }
}

/// `primary` at `i`; an identifier must be one of `a`.
pub open spec fn p_primary(t: Seq<Token>, a: Seq<Seq<char>>, i: int) -> ParseOutcome
    decreases t.len() - i, 0int,
{
    if 0 <= i < t.len() {
        match t[i] {
            Token::Ident(name) => if a.contains(name) {
                Ok((ExprTree::Ident(name), i + 1))
            } else {
                Err((ExprError::UnknownVariable(name), i + 1))
            },
            Token::Number(text) => Ok((ExprTree::Number(text), i + 1)),
            Token::LParen => match p_additive(t, a, i + 1) {
                Err(e) => Err(e),
                Ok((inner, j)) => if i + 1 <= j < t.len() && t[j] is RParen {
                    Ok((ExprTree::Paren(Box::new(inner)), j + 1))
                } else {
                    Err((ExprError::Malformed, j))
                },
            },
            _ => Err((ExprError::Malformed, i)),
        }
    } else {
        Err((ExprError::Malformed, i))
    }
}

/// The verdict on the expression `s` with the variables `a`: it must lex,
/// and its tokens must form one `additive` with nothing left over; its tree
/// where they do.
pub open spec fn expression_outcome(s: Seq<char>, a: Seq<Seq<char>>) -> Result<ExprTree, ExprError> {
    match lex_from(s, 0) {
        None => Err(ExprError::Malformed),
        Some(t) => match p_additive(t, a, 0) {
            Err((e, _)) => Err(e),
            Ok((tree, j)) => if j == t.len() {
                Ok(tree)
            } else {
                Err(ExprError::Malformed)
            },
        },
    }
}

/// The compile error that an expression error on `line` becomes.
pub open spec fn expr_error_view(e: ExprError, line: nat) -> ErrorView {
    match e {
        ExprError::Malformed => ErrorView {
            code: ErrorCode::InvalidFormula,
            message: "malformed expression"@,
            line: Some(line),
        },
        ExprError::UnknownVariable(name) => ErrorView {
            code: ErrorCode::UnknownVariable,
            message: "variable not allowed: "@ + name,
            line: Some(line),
        },
    }
}

fn malformed(line: usize) -> (e: CompileError)
    ensures
        e@ == expr_error_view(ExprError::Malformed, line as nat),
{
    CompileError::new(ErrorCode::InvalidFormula, "malformed expression", Some(line))
}

fn classify_token(kind: &ExprTokenKind) -> (c: ExprTokenClass)
    ensures
        (c == ExprTokenClass::Ident) == (kind@ is Ident),
        (c == ExprTokenClass::Number) == (kind@ is Number),
        (c == ExprTokenClass::Plus) == (kind@ is Plus),
        (c == ExprTokenClass::Minus) == (kind@ is Minus),
        (c == ExprTokenClass::Star) == (kind@ is Star),
        (c == ExprTokenClass::Slash) == (kind@ is Slash),
        (c == ExprTokenClass::Percent) == (kind@ is Percent),
        (c == ExprTokenClass::Caret) == (kind@ is Caret),
        (c == ExprTokenClass::LParen) == (kind@ is LParen),
        (c == ExprTokenClass::RParen) == (kind@ is RParen),
{
    match kind {
        ExprTokenKind::Ident(_) => ExprTokenClass::Ident,
        ExprTokenKind::Number(_) => ExprTokenClass::Number,
        ExprTokenKind::Plus => ExprTokenClass::Plus,
        ExprTokenKind::Minus => ExprTokenClass::Minus,
        ExprTokenKind::Star => ExprTokenClass::Star,
        ExprTokenKind::Slash => ExprTokenClass::Slash,
        ExprTokenKind::Percent => ExprTokenClass::Percent,
        ExprTokenKind::Caret => ExprTokenClass::Caret,
        ExprTokenKind::LParen => ExprTokenClass::LParen,
        ExprTokenKind::RParen => ExprTokenClass::RParen,
    }
}

/// The token of a class as it is seen by the grammar.
spec fn class_matches(c: ExprTokenClass, t: Token) -> bool {
    match c {
        ExprTokenClass::Ident => t is Ident,
        ExprTokenClass::Number => t is Number,
        ExprTokenClass::Plus => t is Plus,
        ExprTokenClass::Minus => t is Minus,
        ExprTokenClass::Star => t is Star,
        ExprTokenClass::Slash => t is Slash,
        ExprTokenClass::Percent => t is Percent,
        ExprTokenClass::Caret => t is Caret,
        ExprTokenClass::LParen => t is LParen,
        ExprTokenClass::RParen => t is RParen,
    }
}

fn operator_kind(c: char) -> (r: Option<ExprTokenKind>)
    ensures
        r matches Some(k) ==> operator_token(c) == Some(k@),
        r is None ==> operator_token(c) is None,
{
    match c {
        '+' => Some(ExprTokenKind::Plus),
        '-' => Some(ExprTokenKind::Minus),
        '*' => Some(ExprTokenKind::Star),
        '/' => Some(ExprTokenKind::Slash),
        '%' => Some(ExprTokenKind::Percent),
        '^' => Some(ExprTokenKind::Caret),
        '(' => Some(ExprTokenKind::LParen),
        ')' => Some(ExprTokenKind::RParen),
        _ => None,
    }
}

fn lex_expression(chars: &Vec<char>, line: usize) -> (r: Result<Vec<ExprToken>, CompileError>)
    ensures
        r matches Ok(v) ==> lex_from(chars@, 0) == Some(tokens_view(v@)),
        r matches Err(e) ==> lex_from(chars@, 0) is None && e@ == expr_error_view(
            ExprError::Malformed,
            line as nat,
        ),
{
    let mut index: usize = 0;
    let mut tokens: Vec<ExprToken> = Vec::new();
    while index < chars.len()
        invariant
            index <= chars.len(),
            lex_from(chars@, 0) == match lex_from(chars@, index as int) {
                Some(rest) => Some(tokens_view(tokens@) + rest),
                None => None,
            },
        decreases chars.len() - index,
    {
        let ch = chars[index];
        let ghost before = tokens_view(tokens@);
        if is_whitespace(ch) {
            index = index + 1;
            continue;
        }
        if is_ident_start(ch) {
            let start = index;
            proof {
                lemma_span_end_bounds(chars@, start + 1, CharClass::IdentContinue);
            }
            index = scan(chars, index + 1, CharClass::IdentContinue);
            let name = range_to_string(chars, start, index);
            tokens.push(ExprToken { kind: ExprTokenKind::Ident(name) });
            proof {
                assert(tokens_view(tokens@) =~= before.push(Token::Ident(chars@.subrange(start as int, index as int))));
                match lex_from(chars@, index as int) {
                    Some(rest) => {
                        assert(before + (seq![Token::Ident(chars@.subrange(start as int, index as int))] + rest)
                            =~= tokens_view(tokens@) + rest);
                    },
                    None => {},
                }
            }
            continue;
        }
        if is_digit(ch) {
            let start = index;
            match consume_expr_number(chars, index) {
                Some(e) => {
                    proof {
                        lemma_span_end_bounds(chars@, start as int, CharClass::Digit);
                    }
                    index = e;
                },
                None => {
                    return Err(malformed(line));
                },
            }
            let text = range_to_string(chars, start, index);
            tokens.push(ExprToken { kind: ExprTokenKind::Number(text) });
            proof {
                assert(tokens_view(tokens@) =~= before.push(Token::Number(chars@.subrange(start as int, index as int))));
                match lex_from(chars@, index as int) {
                    Some(rest) => {
                        assert(before + (seq![Token::Number(chars@.subrange(start as int, index as int))] + rest)
                            =~= tokens_view(tokens@) + rest);
                    },
                    None => {},
                }
            }
            continue;
        }
        match operator_kind(ch) {
            Some(kind) => {
                let ghost tk = kind@;
                tokens.push(ExprToken { kind });
                proof {
                    assert(tokens_view(tokens@) =~= before.push(tk));
                    match lex_from(chars@, index + 1) {
                        Some(rest) => {
                            assert(before + (seq![tk] + rest) =~= tokens_view(tokens@) + rest);
                        },
                        None => {},
                    }
                }
                index = index + 1;
            },
            None => {
                return Err(malformed(line));
            },
        }
    }
    assert(tokens_view(tokens@) + Seq::<Token>::empty() =~= tokens_view(tokens@));
    Ok(tokens)
}

/// The characters of each string of `v`, in order.
pub open spec fn str_views(v: Seq<&str>) -> Seq<Seq<char>> {
    v.map_values(|s: &str| s@)
}

/// Whether `name` is one of `allowed`.
pub(crate) fn contains_name(allowed: &[&str], name: &str) -> (r: bool)
    ensures
        r == str_views(allowed@).contains(name@),
{
    let ghost a = str_views(allowed@);
    let mut i: usize = 0;
    while i < allowed.len()
        invariant
            i <= allowed.len(),
            a == str_views(allowed@),
            forall|j: int| 0 <= j < i ==> a[j] != name@,
        decreases allowed.len() - i,
    {
        if str_eq(allowed[i], name) {
            assert(a[i as int] == name@);
            return true;
        }
        i = i + 1;
    }
    false
}

struct ExprParser<'a> {
    tokens: &'a [ExprToken],
    pos: usize,
    line: usize,
    allowed_variables: &'a [&'a str],
}

impl<'a> ExprParser<'a> {
    spec fn toks(&self) -> Seq<Token> {
        tokens_view(self.tokens@)
    }

    spec fn allowed(&self) -> Seq<Seq<char>> {
        str_views(self.allowed_variables@)
    }

    /// The parser after the call still reads the same tokens.
    spec fn same_input(&self, other: &Self) -> bool {
        &&& self.tokens@ == other.tokens@
        &&& self.line == other.line
        &&& self.allowed_variables@ == other.allowed_variables@
    }

    /// What the call did agrees with `outcome`.
    spec fn agrees(
        old_p: &Self,
        new_p: &Self,
        r: Result<Expr, CompileError>,
        outcome: ParseOutcome,
    ) -> bool {
        &&& new_p.same_input(old_p)
        &&& match outcome {
            Ok((tree, j)) => r matches Ok(e) && e@ == tree && new_p.pos == j && old_p.pos <= j
                <= old_p.tokens@.len(),
            Err((x, p)) => r matches Err(err) && err@ == expr_error_view(x, old_p.line as nat)
                && new_p.pos == p,
        }
    }

    fn parse_additive(&mut self) -> (r: Result<Expr, CompileError>)
        requires
            old(self).pos <= old(self).tokens@.len(),
        ensures
            Self::agrees(
                old(self),
                final(self),
                r,
                p_additive(old(self).toks(), old(self).allowed(), old(self).pos as int),
            ),
        decreases old(self).tokens@.len() - old(self).pos, 6int,
    {
        let ghost t = self.toks();
        let ghost a = self.allowed();
        let ghost start = *self;
        let mut acc = self.parse_multiplicative()?;
        loop
            invariant
                start == *old(self),
                self.same_input(&start),
                start.pos <= self.pos <= self.tokens@.len(),
                p_additive(t, a, start.pos as int) == p_additive_rest(t, a, self.pos as int, acc@),
                t == self.toks(),
                a == self.allowed(),
            ensures
                Self::agrees(&start, self, Ok(acc), p_additive(t, a, start.pos as int)),
            decreases self.tokens@.len() - self.pos,
        {
            let op = if self.consume_class(ExprTokenClass::Plus) {
                Some(BinaryOp::Add)
            } else if self.consume_class(ExprTokenClass::Minus) {
                Some(BinaryOp::Sub)
            } else {
                None
            };
            match op {
                Some(op) => {
                    let rhs = self.parse_multiplicative()?;
                    acc = Expr::Binary { op, lhs: Box::new(acc), rhs: Box::new(rhs) };
                },
                None => {
                    break;
                },
            }
        }
        Ok(acc)
    }

    fn parse_multiplicative(&mut self) -> (r: Result<Expr, CompileError>)
        requires
            old(self).pos <= old(self).tokens@.len(),
        ensures
            Self::agrees(
                old(self),
                final(self),
                r,
                p_multiplicative(old(self).toks(), old(self).allowed(), old(self).pos as int),
            ),
        decreases old(self).tokens@.len() - old(self).pos, 4int,
    {
        let ghost t = self.toks();
        let ghost a = self.allowed();
        let ghost start = *self;
        let mut acc = self.parse_unary()?;
        loop
            invariant
                start == *old(self),
                self.same_input(&start),
                start.pos <= self.pos <= self.tokens@.len(),
                p_multiplicative(t, a, start.pos as int) == p_multiplicative_rest(
                    t,
                    a,
                    self.pos as int,
                    acc@,
                ),
                t == self.toks(),
                a == self.allowed(),
            ensures
                Self::agrees(&start, self, Ok(acc), p_multiplicative(t, a, start.pos as int)),
            decreases self.tokens@.len() - self.pos,
        {
            let op = if self.consume_class(ExprTokenClass::Star) {
                Some(BinaryOp::Mul)
            } else if self.consume_class(ExprTokenClass::Slash) {
                Some(BinaryOp::Div)
            } else if self.consume_class(ExprTokenClass::Percent) {
                Some(BinaryOp::Rem)
            } else {
                None
            };
            match op {
                Some(op) => {
                    let rhs = self.parse_unary()?;
                    acc = Expr::Binary { op, lhs: Box::new(acc), rhs: Box::new(rhs) };
                },
                None => {
                    break;
                },
            }
        }
        Ok(acc)
    }

    fn parse_unary(&mut self) -> (r: Result<Expr, CompileError>)
        requires
            old(self).pos <= old(self).tokens@.len(),
        ensures
            Self::agrees(
                old(self),
                final(self),
                r,
                p_unary(old(self).toks(), old(self).allowed(), old(self).pos as int),
            ),
        decreases old(self).tokens@.len() - old(self).pos, 2int,
    {
        let sign = if self.consume_class(ExprTokenClass::Plus) {
            Some(UnaryOp::Plus)
        } else if self.consume_class(ExprTokenClass::Minus) {
            Some(UnaryOp::Minus)
        } else {
            None
        };
        match sign {
            Some(sign) => {
                let operand = self.parse_unary()?;
                Ok(Expr::Unary { sign, operand: Box::new(operand) })
            },
            None => self.parse_power(),
        }
    }

    fn parse_power(&mut self) -> (r: Result<Expr, CompileError>)
        requires
            old(self).pos <= old(self).tokens@.len(),
        ensures
            Self::agrees(
                old(self),
                final(self),
                r,
                p_power(old(self).toks(), old(self).allowed(), old(self).pos as int),
            ),
        decreases old(self).tokens@.len() - old(self).pos, 1int,
    {
        let base = self.parse_primary()?;
        if self.consume_class(ExprTokenClass::Caret) {
            let exponent = self.parse_unary()?;
            Ok(Expr::Binary { op: BinaryOp::Pow, lhs: Box::new(base), rhs: Box::new(exponent) })
        } else {
            Ok(base)
        }
    }

    fn parse_primary(&mut self) -> (r: Result<Expr, CompileError>)
        requires
            old(self).pos <= old(self).tokens@.len(),
        ensures
            Self::agrees(
                old(self),
                final(self),
                r,
                p_primary(old(self).toks(), old(self).allowed(), old(self).pos as int),
            ),
        decreases old(self).tokens@.len() - old(self).pos, 0int,
    {
        let ghost t = self.toks();
        match self.peek_kind() {
            Some(ExprTokenKind::Ident(name)) => {
                let found = contains_name(self.allowed_variables, name.as_str());
                if !found {
                    let mut message = String::from_str("variable not allowed: ");
                    message.append(name.as_str());
                    self.pos = self.pos + 1;
                    return Err(CompileError {
                        code: ErrorCode::UnknownVariable,
                        message,
                        line: Some(self.line),
                    });
                }
                let leaf = Expr::Ident(name.clone());
                self.pos = self.pos + 1;
                Ok(leaf)
            },
            Some(ExprTokenKind::Number(text)) => {
                let leaf = Expr::Number(text.clone());
                self.pos = self.pos + 1;
                Ok(leaf)
            },
            Some(ExprTokenKind::LParen) => {
                self.pos = self.pos + 1;
                let inner = self.parse_additive()?;
                match self.peek_kind() {
                    Some(ExprTokenKind::RParen) => {
                        self.pos = self.pos + 1;
                        Ok(Expr::Paren(Box::new(inner)))
                    },
                    _ => Err(malformed(self.line)),
                }
            },
            _ => Err(malformed(self.line)),
        }
    }

    /// Moves past the next token where it is of class `class`.
    fn consume_class(&mut self, class: ExprTokenClass) -> (r: bool)
        requires
            old(self).pos <= old(self).tokens@.len(),
        ensures
            final(self).same_input(old(self)),
            r == (old(self).pos < old(self).tokens@.len() && class_matches(
                class,
                old(self).toks()[old(self).pos as int],
            )),
            final(self).pos == if r {
                old(self).pos + 1
            } else {
                old(self).pos as int
            },
    {
        match self.peek_class() {
            Some(c) => {
                if c == class {
                    self.pos = self.pos + 1;
                    true
                } else {
                    false
                }
            },
            None => false,
        }
    }

    fn peek_class(&self) -> (r: Option<ExprTokenClass>)
        requires
            self.pos <= self.tokens@.len(),
        ensures
            r is None <==> self.pos == self.tokens@.len(),
            self.tokens@.len() <= usize::MAX,
            r matches Some(c) ==> forall|k: ExprTokenClass|
                (k == c) == class_matches(k, self.toks()[self.pos as int]),
    {
        match self.peek_kind() {
            Some(kind) => Some(classify_token(kind)),
            None => None,
        }
    }

    fn peek_kind(&self) -> (r: Option<&ExprTokenKind>)
        requires
            self.pos <= self.tokens@.len(),
        ensures
            r is None <==> self.pos == self.tokens@.len(),
            r matches Some(k) ==> k@ == self.toks()[self.pos as int],
            self.tokens@.len() <= usize::MAX,
    {
        if self.pos < self.tokens.len() {
            Some(&self.tokens[self.pos].kind)
        } else {
            None
        }
    }
}

/// Parses the right-hand side `expr` of a formula on `line` into its tree:
/// it must be one arithmetic expression over numbers and the variables
/// `allowed_variables`; see `expression_outcome`.
pub fn parse_expression(expr: &str, line: usize, allowed_variables: &[&str]) -> (r: Result<
    Expr,
    CompileError,
>)
    ensures
        r matches Ok(e) ==> expression_outcome(expr@, str_views(allowed_variables@))
            == Ok::<ExprTree, ExprError>(e@),
        r matches Err(err) ==> expression_outcome(
            expr@,
            str_views(allowed_variables@),
        ) matches Err(x) && err@ == expr_error_view(x, line as nat),
{
    let chars = str_chars(expr);
    let tokens = lex_expression(&chars, line)?;
    let mut parser = ExprParser {
        tokens: tokens.as_slice(),
        pos: 0,
        line,
        allowed_variables,
    };
    let tree = parser.parse_additive()?;
    if parser.pos != tokens.len() {
        return Err(malformed(line));
    }
    Ok(tree)
}

/// Checks the right-hand side `expr` of a formula on `line`: it must be one
/// arithmetic expression over numbers and the variables `allowed_variables`;
/// see `expression_outcome`.
pub fn validate_expression(expr: &str, line: usize, allowed_variables: &[&str]) -> (r: Result<
    (),
    CompileError,
>)
    ensures
        r is Ok <==> expression_outcome(expr@, str_views(allowed_variables@)) is Ok,
        r matches Err(e) ==> expression_outcome(
            expr@,
            str_views(allowed_variables@),
        ) matches Err(x) && e@ == expr_error_view(x, line as nat),
{
    parse_expression(expr, line, allowed_variables)?;
    Ok(())
}

} // verus!
