//! Number literals: their syntax and, where the value is an integer that
//! fits in an `i64`, their value; and the bounds of invariants.
use vstd::prelude::*;
use crate::ast::{CompileError, ErrorCode, ErrorView};
use crate::chars::{
    copy_range, lemma_span_end_bounds, range_to_string, scan, span_end, spec_is_digit,
    str_chars, trim, trim_range, CharClass,
};

verus! {

/// The end of a decimal number that starts at `i`: digits, then optionally
/// `.` and at least one digit, then optionally `e`/`E`, an optional sign and
/// at least one digit.  `None` where a `.` or an exponent marker is not
/// followed by its digits.
pub open spec fn decimal_end(s: Seq<char>, i: int) -> Option<int> {
    let i1 = span_end(s, i, CharClass::Digit);
    let i2 = if i1 < s.len() && s[i1] == '.' {
        let f = span_end(s, i1 + 1, CharClass::Digit);
        if f == i1 + 1 {
            None
        } else {
            Some(f)
        }
    } else {
        Some(i1)
    };
    match i2 {
        None => None,
        Some(i2) => if i2 < s.len() && (s[i2] == 'e' || s[i2] == 'E') {
            let j = if i2 + 1 < s.len() && (s[i2 + 1] == '+' || s[i2 + 1] == '-') {
                i2 + 2
            } else {
                i2 + 1
            };
            let k = span_end(s, j, CharClass::Digit);
            if k == j {
                None
            } else {
                Some(k)
            }
        } else {
            Some(i2)
        },
    }
}

/// The length of an optional leading sign.
pub open spec fn sign_len(s: Seq<char>) -> int {
    if s.len() > 0 && (s[0] == '+' || s[0] == '-') {
        1
    } else {
        0
    }
}

/// `[+-]?digits(.digits)?([eE][+-]?digits)?`, nothing else.
pub open spec fn number_syntax(s: Seq<char>) -> bool {
    &&& s.len() > 0
    &&& span_end(s, sign_len(s), CharClass::Digit) > sign_len(s)
    &&& decimal_end(s, sign_len(s)) == Some(s.len() as int)
}

/// The value of a string of decimal digits.
pub open spec fn digits_value(d: Seq<char>) -> int
    decreases d.len(),
{
    if d.len() == 0 {
        0
    } else {
        10 * digits_value(d.drop_last()) + (d.last() as int - '0' as int)
    }
}

/// The value of `-digits` or `digits`.
pub open spec fn int_value(s: Seq<char>) -> int {
    if s.len() > 0 && s[0] == '-' {
        -digits_value(s.drop_first())
    } else {
        digits_value(s)
    }
}

/// Whether `s` holds a fraction or an exponent marker.
pub open spec fn has_fraction(s: Seq<char>) -> bool {
    exists|i: int| 0 <= i < s.len() && (s[i] == '.' || s[i] == 'e' || s[i] == 'E')
}

/// A number literal: an integer that fits in an `i64`, or the text (without
/// its leading `+`) of any other number.
#[derive(Debug, Clone, PartialEq, Eq)]
pub enum NumberLiteral {
    Integer(i64),
    Decimal(String),
}

pub enum NumberLiteralView {
    Integer(int),
    Decimal(Seq<char>),
}

impl View for NumberLiteral {
    type V = NumberLiteralView;

    open spec fn view(&self) -> NumberLiteralView {
        match self {
            NumberLiteral::Integer(v) => NumberLiteralView::Integer(*v as int),
            NumberLiteral::Decimal(t) => NumberLiteralView::Decimal(t@),
        }
    }
}

/// What the literal `raw` (with white space around it) stands for: `None`
/// where it is not a number; an integer where it has no fraction or exponent
/// and its value fits in an `i64`; else its text without a leading `+`.
pub open spec fn number_literal_spec(raw: Seq<char>) -> Option<NumberLiteralView> {
    let t = trim(raw);
    if !number_syntax(t) {
        None
    } else {
        let n = if t[0] == '+' {
            t.drop_first()
        } else {
            t
        };
        if !has_fraction(n) && i64::MIN <= int_value(n) <= i64::MAX {
            Some(NumberLiteralView::Integer(int_value(n)))
        } else {
            Some(NumberLiteralView::Decimal(n))
        }
    }
}

/// The end of the number that starts at `start`, as `decimal_end`.
pub fn consume_expr_number(chars: &Vec<char>, start: usize) -> (r: Option<usize>)
    ensures
        r matches Some(e) ==> decimal_end(chars@, start as int) == Some(e as int) && start <= e
            && (e <= chars.len() || e == start),
        r is Some && start < chars.len() && spec_is_digit(chars@[start as int]) ==> start
            < r.unwrap(),
        r is None ==> decimal_end(chars@, start as int) is None,
{
    if start >= chars.len() {
        return Some(start);
    }
    proof {
        lemma_span_end_bounds(chars@, start as int, CharClass::Digit);
        if start < chars.len() && spec_is_digit(chars@[start as int]) {
            lemma_span_end_bounds(chars@, start + 1, CharClass::Digit);
        }
    }
    let mut index = scan(chars, start, CharClass::Digit);
    if index < chars.len() && chars[index] == '.' {
        index = index + 1;
        let frac_start = index;
        proof {
            lemma_span_end_bounds(chars@, frac_start as int, CharClass::Digit);
        }
        index = scan(chars, index, CharClass::Digit);
        if index == frac_start {
            return None;
        }
    }
    if index < chars.len() && (chars[index] == 'e' || chars[index] == 'E') {
        index = index + 1;
        if index < chars.len() && (chars[index] == '+' || chars[index] == '-') {
            index = index + 1;
        }
        let exp_start = index;
        proof {
            lemma_span_end_bounds(chars@, exp_start as int, CharClass::Digit);
        }
        index = scan(chars, index, CharClass::Digit);
        if index == exp_start {
            return None;
        }
    }
    Some(index)
}

fn number_syntax_chars(chars: &Vec<char>) -> (r: bool)
    ensures
        r == number_syntax(chars@),
{
    if chars.len() == 0 {
        return false;
    }
    let index: usize = if chars[0] == '+' || chars[0] == '-' {
        1
    } else {
        0
    };
    let digit_end = scan(chars, index, CharClass::Digit);
    if digit_end == index {
        return false;
    }
    match consume_expr_number(chars, index) {
        Some(e) => e == chars.len(),
        None => false,
    }
}

/// Whether `raw` is a number: `[+-]?digits(.digits)?([eE][+-]?digits)?`.
pub fn is_number_syntax(raw: &str) -> (r: bool)
    ensures
        r == number_syntax(raw@),
{
    let chars = str_chars(raw);
    number_syntax_chars(&chars)
}

proof fn lemma_digits_value_grows(d: Seq<char>, k: int)
    requires
        0 <= k <= d.len(),
        forall|i: int| 0 <= i < d.len() ==> #[trigger] spec_is_digit(d[i]),
    ensures
        0 <= digits_value(d.take(k)) <= digits_value(d),
    decreases d.len(),
{
    if d.len() > 0 {
        if k == d.len() {
            assert(d.take(k) =~= d);
            lemma_digits_value_grows(d.drop_last(), k - 1);
            assert(spec_is_digit(d[d.len() - 1]));
        } else {
            assert(d.take(k) =~= d.drop_last().take(k));
            lemma_digits_value_grows(d.drop_last(), k);
            lemma_digits_value_grows(d.drop_last(), d.len() - 1);
            assert(d.drop_last().take(d.len() - 1) =~= d.drop_last());
            assert(spec_is_digit(d[d.len() - 1]));
        }
    }
}

/// The value of the digits `chars[lo..hi]`, where it is at most 2^63.
fn digits_upto_2_63(chars: &Vec<char>, lo: usize, hi: usize) -> (r: Option<u64>)
    requires
        lo <= hi <= chars.len(),
        forall|i: int| lo <= i < hi ==> #[trigger] spec_is_digit(chars@[i]),
    ensures
        r matches Some(v) ==> v == digits_value(chars@.subrange(lo as int, hi as int)) && v
            <= 0x8000_0000_0000_0000u64,
        r is None ==> digits_value(chars@.subrange(lo as int, hi as int))
            > 0x8000_0000_0000_0000u64,
{
    let ghost d = chars@.subrange(lo as int, hi as int);
    let mut v: u64 = 0;
    let mut i = lo;
    assert(d.take(0) =~= Seq::<char>::empty());
    while i < hi
        invariant
            lo <= i <= hi <= chars.len(),
            d == chars@.subrange(lo as int, hi as int),
            forall|j: int| lo <= j < hi ==> #[trigger] spec_is_digit(chars@[j]),
            v == digits_value(d.take(i - lo)),
            v <= 0x8000_0000_0000_0000u64,
        decreases hi - i,
    {
        assert(d.take(i - lo + 1).drop_last() =~= d.take(i - lo));
        assert(d.take(i - lo + 1).last() == chars@[i as int]);
        assert(spec_is_digit(chars@[i as int]));
        let digit: u64 = (chars[i] as u32 - '0' as u32) as u64;
        assert(digit as int == chars@[i as int] as int - '0' as int);
        assert(digits_value(d.take(i - lo + 1)) == 10 * v + digit);
        if v > (0x8000_0000_0000_0000u64 - digit) / 10 {
            assert(10 * v + digit > 0x8000_0000_0000_0000u64);
            proof {
                assert forall|j: int| 0 <= j < d.len() implies #[trigger] spec_is_digit(d[j]) by {
                    assert(d[j] == chars@[lo + j]);
                }
                lemma_digits_value_grows(d, i - lo + 1);
            }
            return None;
        }
        v = v * 10 + digit;
        i = i + 1;
    }
    assert(d.take(hi - lo) =~= d);
    Some(v)
}

/// Classifies the number literal `raw`; see `number_literal_spec`.
pub fn classify_number_literal(raw: &str) -> (r: Option<NumberLiteral>)
    ensures
        r matches Some(n) ==> number_literal_spec(raw@) == Some(n@),
        r is None ==> number_literal_spec(raw@) is None,
{
    let chars = str_chars(raw);
    assert(chars@.subrange(0, chars@.len() as int) =~= chars@);
    let (a, b) = trim_range(&chars, 0, chars.len());
    let t = copy_range(&chars, a, b);
    if !number_syntax_chars(&t) {
        return None;
    }
    let start: usize = if t[0] == '+' {
        1
    } else {
        0
    };
    assert(t@.subrange(start as int, t@.len() as int) =~= (if t@[0] == '+' {
        t@.drop_first()
    } else {
        t@
    }));
    let ghost n = t@.subrange(start as int, t@.len() as int);
    let mut i = start;
    let mut fraction = false;
    while i < t.len()
        invariant
            start <= i <= t.len(),
            n == t@.subrange(start as int, t@.len() as int),
            !fraction ==> forall|j: int|
                start <= j < i ==> !(#[trigger] t@[j] == '.' || t@[j] == 'e' || t@[j] == 'E'),
            fraction ==> has_fraction(n),
        decreases t.len() - i,
    {
        if t[i] == '.' || t[i] == 'e' || t[i] == 'E' {
            assert(n[i - start] == t@[i as int]);
            fraction = true;
        }
        i = i + 1;
    }
    if !fraction {
        assert(!has_fraction(n)) by {
            assert forall|j: int| 0 <= j < n.len() implies !(n[j] == '.' || n[j] == 'e' || n[j] == 'E') by {
                assert(n[j] == t@[start + j]);
            }
        }
        proof {
            let sl = sign_len(t@);
            lemma_span_end_bounds(t@, sl, CharClass::Digit);
        }
        // Without fraction or exponent the literal is a sign and digits.
        let negative = t[start] == '-';
        let digits_start: usize = if negative {
            start + 1
        } else {
            start
        };
        proof {
            assert(span_end(t@, digits_start as int, CharClass::Digit) == t@.len());
            lemma_span_end_bounds(t@, digits_start as int, CharClass::Digit);
            assert forall|j: int| digits_start <= j < t@.len() implies #[trigger] spec_is_digit(t@[j]) by {
                assert(crate::chars::in_class(t@[j], CharClass::Digit));
            }
            let dd = t@.subrange(digits_start as int, t@.len() as int);
            if negative {
                assert(n.drop_first() =~= dd);
            } else {
                assert(n =~= dd);
            }
        }
        match digits_upto_2_63(&t, digits_start, t.len()) {
            Some(v) => {
                if negative {
                    let value: i64 = if v == 0x8000_0000_0000_0000u64 {
                        i64::MIN
                    } else {
                        -(v as i64)
                    };
                    return Some(NumberLiteral::Integer(value));
                } else if v <= 0x7fff_ffff_ffff_ffffu64 {
                    return Some(NumberLiteral::Integer(v as i64));
                }
            },
            None => {},
        }
    }
    Some(NumberLiteral::Decimal(range_to_string(&t, start, t.len())))
}

/// A number literal keeps its sign: the text of a decimal is the trimmed
/// literal, less only a leading `+`, so that it starts with `-` exactly when
/// the literal does; an integer is negative only where the literal starts
/// with `-`, and never negative otherwise.
pub proof fn law_number_literal_keeps_sign(raw: Seq<char>)
    ensures
        number_literal_spec(raw) matches Some(NumberLiteralView::Decimal(n)) ==> {
            let t = trim(raw);
            &&& n.len() > 0
            &&& n == t || (t[0] == '+' && n == t.drop_first())
            &&& (n[0] == '-' <==> t[0] == '-')
        },
        number_literal_spec(raw) matches Some(NumberLiteralView::Integer(v)) ==> {
            let t = trim(raw);
            &&& t[0] == '-' ==> v <= 0
            &&& t[0] != '-' ==> v >= 0
        },
{
    let t = trim(raw);
    if number_syntax(t) {
        let sl = sign_len(t);
        lemma_span_end_bounds(t, sl, CharClass::Digit);
        assert(spec_is_digit(t[sl])) by {
            assert(crate::chars::in_class(t[sl], CharClass::Digit));
        }
        let n = if t[0] == '+' {
            t.drop_first()
        } else {
            t
        };
        if t[0] == '+' {
            assert(n[0] == t[1]);
        }
        if !has_fraction(n) && i64::MIN <= int_value(n) <= i64::MAX {
            // Without a fraction or exponent the digits run to the end.
            let i1 = span_end(t, sl, CharClass::Digit);
            if i1 < t.len() {
                if t[i1] == '.' || t[i1] == 'e' || t[i1] == 'E' {
                    if t[0] == '+' {
                        assert(n[i1 - 1] == t[i1]);
                    } else {
                        assert(n[i1] == t[i1]);
                    }
                }
                assert(decimal_end(t, sl) == Some(i1));
            }
            assert(i1 == t.len());
            let dd = t.subrange(sl, t.len() as int);
            assert forall|j: int| 0 <= j < dd.len() implies #[trigger] spec_is_digit(dd[j]) by {
                assert(crate::chars::in_class(t[sl + j], CharClass::Digit));
            }
            lemma_digits_value_grows(dd, 0);
            if t[0] == '-' {
                assert(n.drop_first() =~= dd);
            } else if t[0] == '+' {
                assert(n =~= dd);
            } else {
                assert(n =~= dd);
            }
        }
    }
}

/// A bound of an invariant as read: the JSON number of an integer, or the
/// text of a number that is read as floating point.
#[derive(Debug, PartialEq)]
pub enum Bound {
    Exact(serde_json::Number),
    Inexact(String),
}

/// What serde_json's `Number::from` gives for the integer `v`.
pub uninterp spec fn json_number_of_i64(v: i64) -> serde_json::Number;

/// Calls serde_json's `impl From<i64> for Number`.  Trusted: the contract
/// claims only that the result depends on `v` alone; that it is the JSON
/// number `v` exactly is left unsaid.
#[verifier::external_body]
fn number_from_i64(v: i64) -> (n: serde_json::Number)
    ensures
        n == json_number_of_i64(v),
{
    serde_json::Number::from(v)
}

/// The error of a bound on `line` that is not a valid number.
pub open spec fn invalid_range(line: nat) -> ErrorView {
    ErrorView { code: ErrorCode::InvalidInvariant, message: "invalid range"@, line: Some(line) }
}

/// Reads the bound `raw` of an invariant on `line`: an error where it is not
/// a number, the JSON number of an integer that fits in an `i64`, and the
/// text of any other number.
pub fn read_bound(raw: &str, line: usize) -> (r: Result<Bound, CompileError>)
    ensures
        match number_literal_spec(raw@) {
            None => r matches Err(e) && e@ == invalid_range(line as nat),
            Some(NumberLiteralView::Integer(v)) => r matches Ok(Bound::Exact(n)) && n
                == json_number_of_i64(v as i64),
            Some(NumberLiteralView::Decimal(t)) => r matches Ok(Bound::Inexact(s)) && s@ == t,
        },
{
    match classify_number_literal(raw) {
        None => Err(CompileError::new(ErrorCode::InvalidInvariant, "invalid range", Some(line))),
        Some(NumberLiteral::Integer(v)) => Ok(Bound::Exact(number_from_i64(v))),
        Some(NumberLiteral::Decimal(text)) => Ok(Bound::Inexact(text)),
    }
}

} // verus!
