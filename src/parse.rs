//! The header grammar: `#define` records, the include-guard preamble and the
//! body of defines up to `#endif`.
use vstd::prelude::*;

use crate::grammar::{
    all_in_class, char_in_class, collapse, collapse_range, comment_at, comment_open, dec_number,
    dec_u32, decimal, digits_value, find_close, find_comment_close, has_line_feed, hex_digits,
    hex_number, hex_u32, in_class, is_ident_start, is_single_spaced, lemma_collapse_single_spaced,
    lemma_decimal, lemma_run_end, lemma_run_end_exact, lemma_run_end_reaches, lemma_skip_blanks,
    lemma_u32_hex_digits, push_decimal, push_hex, run_end, scan, skip_space,
    starts_at, starts_with_at, CharClass,
};
use crate::text::{push_char, push_chars, string_of, to_chars};

verus! {

/// One parsed `#define NAME VALUE [COMMENT]` record.
#[derive(Debug, PartialEq, Eq)]
pub struct Define {
    pub name: String,
    pub expression: Expression,
    /// The text between `/*` and `*/` of a comment that follows the value,
    /// with its whitespace collapsed: lines joined by single spaces, runs of
    /// whitespace made one space, none left at either end.
    pub comment: Option<String>,
}

/// The value of a define.
#[derive(Debug, PartialEq, Eq)]
pub enum Expression {
    /// A decimal or hexadecimal literal.
    Constant(u32),
    /// The value of the define `other`, plus `add` where it is given.
    Expression { other: String, add: Option<u32> },
}

/// The mathematical model of an [`Expression`].
pub enum ExprModel {
    Constant(u32),
    Deferred { other: Seq<char>, add: Option<u32> },
}

/// The mathematical model of a [`Define`].
pub struct DefineModel {
    pub name: Seq<char>,
    pub expression: ExprModel,
    pub comment: Option<Seq<char>>,
}

impl View for Expression {
    type V = ExprModel;

    open spec fn view(&self) -> ExprModel {
        match self {
            Expression::Constant(v) => ExprModel::Constant(*v),
            Expression::Expression { other, add } => ExprModel::Deferred { other: other@, add: *add },
        }
    }
}

impl View for Define {
    type V = DefineModel;

    open spec fn view(&self) -> DefineModel {
        DefineModel {
            name: self.name@,
            expression: self.expression@,
            comment: match self.comment {
                Some(c) => Some(c@),
                None => None,
            },
        }
    }
}

pub open spec fn models(ds: Seq<Define>) -> Seq<DefineModel> {
    ds.map_values(|d: Define| d@)
}

/// Why a header could not be parsed.
#[derive(Debug, Clone, Copy, PartialEq, Eq, Structural)]
pub enum ParseErrorKind {
    /// The `#ifndef GUARD` / `#define GUARD` lines are missing or out of order.
    MalformedPreamble,
    /// A `#define` without a name, or without whitespace around it.
    MalformedDefine,
    /// A define's value is none of the accepted forms.
    UnrecognizedValueGrammar,
    /// A comment opened with `/*` is never closed.
    UnterminatedComment,
    /// The defines are not followed by `#endif`.
    MissingEndif,
}

/// A parse failure and where it was found.
#[derive(Debug, Clone, Copy, PartialEq, Eq, Structural)]
pub struct ParseError {
    pub kind: ParseErrorKind,
    /// The offset in characters from the start of the text.
    pub offset: usize,
    /// The zero-based line: the number of line feeds before `offset`.
    pub line: usize,
}

/// The sentence that describes each kind of parse failure.
pub open spec fn reason_text(k: ParseErrorKind) -> Seq<char> {
    match k {
        ParseErrorKind::MalformedPreamble => "missing or malformed include guard"@,
        ParseErrorKind::MalformedDefine => "#define without a name"@,
        ParseErrorKind::UnrecognizedValueGrammar => "unrecognized define value"@,
        ParseErrorKind::UnterminatedComment => "comment never closed"@,
        ParseErrorKind::MissingEndif => "expected #define or #endif"@,
    }
}

impl ParseErrorKind {
    /// A human-readable reason for the failure.
    pub fn reason(&self) -> (r: &'static str)
        ensures
            r@ == reason_text(*self),
    {
        match self {
            ParseErrorKind::MalformedPreamble => "missing or malformed include guard",
            ParseErrorKind::MalformedDefine => "#define without a name",
            ParseErrorKind::UnrecognizedValueGrammar => "unrecognized define value",
            ParseErrorKind::UnterminatedComment => "comment never closed",
            ParseErrorKind::MissingEndif => "expected #define or #endif",
        }
    }
}

pub open spec fn define_kw() -> Seq<char> {
    seq!['#', 'd', 'e', 'f', 'i', 'n', 'e']
}

pub open spec fn ifndef_kw() -> Seq<char> {
    seq!['#', 'i', 'f', 'n', 'd', 'e', 'f']
}

pub open spec fn endif_kw() -> Seq<char> {
    seq!['#', 'e', 'n', 'd', 'i', 'f']
}

pub open spec fn hex_prefix() -> Seq<char> {
    seq!['0', 'x']
}

/// The end of the identifier that starts at `i`.
pub open spec fn identifier_end(s: Seq<char>, i: int) -> Option<int> {
    if 0 <= i < s.len() && is_ident_start(s[i]) {
        Some(run_end(s, i, CharClass::Ident))
    } else {
        None
    }
}

/// `(NAME + N)`, with optional spaces or tabs around the `+`.
pub open spec fn expression_at(s: Seq<char>, i: int) -> Option<(ExprModel, int)> {
    if 0 <= i < s.len() && s[i] == '(' {
        match identifier_end(s, i + 1) {
            Some(a) => {
                let b = run_end(s, a, CharClass::HSpace);
                if b < s.len() && s[b] == '+' {
                    match dec_number(s, run_end(s, b + 1, CharClass::HSpace)) {
                        Some((v, d)) => if d < s.len() && s[d] == ')' {
                            Some(
                                (
                                    ExprModel::Deferred {
                                        other: s.subrange(i + 1, a),
                                        add: Some(v as u32),
                                    },
                                    d + 1,
                                ),
                            )
                        } else {
                            None
                        },
                        None => None,
                    }
                } else {
                    None
                }
            },
            None => None,
        }
    } else {
        None
    }
}

/// The value at `i`, by the first of these forms that matches: `0x` and
/// hexadecimal digits, decimal digits, `(NAME + N)`, a bare name.
pub open spec fn value_at(s: Seq<char>, i: int) -> Option<(ExprModel, int)> {
    if starts_at(s, i, hex_prefix()) && hex_number(s, i + 2) is Some {
        let (v, e) = hex_number(s, i + 2).unwrap();
        Some((ExprModel::Constant(v as u32), e))
    } else if dec_number(s, i) is Some {
        let (v, e) = dec_number(s, i).unwrap();
        Some((ExprModel::Constant(v as u32), e))
    } else if expression_at(s, i) is Some {
        expression_at(s, i)
    } else {
        match identifier_end(s, i) {
            Some(e) => Some((ExprModel::Deferred { other: s.subrange(i, e), add: None }, e)),
            None => None,
        }
    }
}

/// `#define`, blanks, a name, blanks: the start and end of the name and the
/// start of the value.
pub open spec fn define_head(s: Seq<char>, i: int) -> Option<(int, int, int)> {
    if starts_at(s, i, define_kw()) {
        let a = run_end(s, i + 7, CharClass::HSpace);
        if a > i + 7 {
            match identifier_end(s, a) {
                Some(b) => {
                    let c = run_end(s, b, CharClass::HSpace);
                    if c > b {
                        Some((a, b, c))
                    } else {
                        None
                    }
                },
                None => None,
            }
        } else {
            None
        }
    } else {
        None
    }
}

/// Some line that begins in `s[m..k]` starts, after blanks, with `#define`
/// before `k`.
pub open spec fn define_line_in(s: Seq<char>, m: int, k: int) -> bool
    decreases k - m,
{
    if m < 0 || m >= k {
        false
    } else if s[m] == '\n' && run_end(s, m + 1, CharClass::HSpace) < k && starts_at(
        s,
        run_end(s, m + 1, CharClass::HSpace),
        define_kw(),
    ) {
        true
    } else {
        define_line_in(s, m + 1, k)
    }
}

/// A comment that follows the value ending at `f`, after at least one blank:
/// where it opens and where its `*/` stands. It may run over several lines,
/// but none of them may start a new `#define`.
pub open spec fn trailing_comment(s: Seq<char>, f: int) -> Option<(int, int)> {
    let g = run_end(s, f, CharClass::HSpace);
    if g > f {
        match comment_at(s, g) {
            Some(k) => if define_line_in(s, g + 2, k) {
                None
            } else {
                Some((g, k))
            },
            None => None,
        }
    } else {
        None
    }
}

/// A comment after blanks at `f` that is never closed, or that reaches a line
/// starting with `#define` before it closes: where it opens.
pub open spec fn runaway_comment(s: Seq<char>, f: int) -> Option<int> {
    let g = run_end(s, f, CharClass::HSpace);
    if starts_at(s, g, comment_open()) && match find_close(s, g + 2) {
        Some(k) => define_line_in(s, g + 2, k),
        None => true,
    } {
        Some(g)
    } else {
        None
    }
}

/// The define at `i` and the position just after it.
pub open spec fn define_at(s: Seq<char>, i: int) -> Option<(DefineModel, int)> {
    match define_head(s, i) {
        Some((a, b, c)) => match value_at(s, c) {
            Some((x, f)) => match trailing_comment(s, f) {
                Some((g, k)) => Some(
                    (
                        DefineModel {
                            name: s.subrange(a, b),
                            expression: x,
                            comment: Some(collapse(s.subrange(g + 2, k))),
                        },
                        k + 2,
                    ),
                ),
                None => Some((DefineModel { name: s.subrange(a, b), expression: x, comment: None }, f)),
            },
            None => None,
        },
        None => None,
    }
}

fn define_keyword() -> (r: Vec<char>)
    ensures
        r@ == define_kw(),
{
    let r = vec!['#', 'd', 'e', 'f', 'i', 'n', 'e'];
    assert(r@ =~= define_kw());
    r
}

fn ifndef_keyword() -> (r: Vec<char>)
    ensures
        r@ == ifndef_kw(),
{
    let r = vec!['#', 'i', 'f', 'n', 'd', 'e', 'f'];
    assert(r@ =~= ifndef_kw());
    r
}

fn endif_keyword() -> (r: Vec<char>)
    ensures
        r@ == endif_kw(),
{
    let r = vec!['#', 'e', 'n', 'd', 'i', 'f'];
    assert(r@ =~= endif_kw());
    r
}

fn identifier(s: &[char], i: usize) -> (r: Option<usize>)
    requires
        i <= s@.len(),
    ensures
        r is Some == identifier_end(s@, i as int) is Some,
        r matches Some(e) ==> identifier_end(s@, i as int) == Some(e as int) && i < e <= s@.len(),
{
    if i < s.len() && (('a' <= s[i] && s[i] <= 'z') || ('A' <= s[i] && s[i] <= 'Z') || s[i]
        == '_') {
        let e = scan(s, i, CharClass::Ident);
        proof {
            lemma_run_end(s@, i + 1, CharClass::Ident);
        }
        Some(e)
    } else {
        None
    }
}

/// Parses `(NAME + N)` at `i`.
fn parse_define_expression(s: &[char], i: usize) -> (r: Option<(Expression, usize)>)
    requires
        i <= s@.len(),
    ensures
        r is Some == expression_at(s@, i as int) is Some,
        r matches Some((x, e)) ==> expression_at(s@, i as int) == Some((x@, e as int)) && i < e
            <= s@.len(),
{
    if i >= s.len() || s[i] != '(' {
        return None;
    }
    let a = match identifier(s, i + 1) {
        Some(a) => a,
        None => return None,
    };
    let b = scan(s, a, CharClass::HSpace);
    if b >= s.len() || s[b] != '+' {
        return None;
    }
    let c = scan(s, b + 1, CharClass::HSpace);
    match dec_u32(s, c) {
        Some((v, d)) => {
            proof {
                lemma_run_end(s@, c as int, CharClass::Digit);
            }
            if d < s.len() && s[d] == ')' {
                let other = string_of(s, i + 1, a);
                Some((Expression::Expression { other, add: Some(v) }, d + 1))
            } else {
                None
            }
        },
        None => None,
    }
}

/// Parses a bare name at `i`: the value of another define.
fn parse_define_deferred(s: &[char], i: usize) -> (r: Option<(Expression, usize)>)
    requires
        i <= s@.len(),
    ensures
        r is Some == identifier_end(s@, i as int) is Some,
        r matches Some((x, e)) ==> identifier_end(s@, i as int) == Some(e as int) && x@
            == (ExprModel::Deferred { other: s@.subrange(i as int, e as int), add: None }) && i
            < e <= s@.len(),
{
    match identifier(s, i) {
        Some(e) => Some((Expression::Expression { other: string_of(s, i, e), add: None }, e)),
        None => None,
    }
}

/// Parses the value of a define at `i`.
fn parse_define_value(s: &[char], i: usize) -> (r: Option<(Expression, usize)>)
    requires
        i <= s@.len(),
    ensures
        r is Some == value_at(s@, i as int) is Some,
        r matches Some((x, e)) ==> value_at(s@, i as int) == Some((x@, e as int)) && i < e
            <= s@.len(),
{
    let prefix = vec!['0', 'x'];
    assert(prefix@ =~= hex_prefix());
    if s.len() - i >= 2 && starts_with_at(s, i, prefix.as_slice()) {
        if let Some((v, e)) = hex_u32(s, i + 2) {
            proof {
                lemma_run_end(s@, i + 2, CharClass::HexDigit);
            }
            return Some((Expression::Constant(v), e));
        }
    }
    if let Some((v, e)) = dec_u32(s, i) {
        proof {
            lemma_run_end(s@, i as int, CharClass::Digit);
        }
        return Some((Expression::Constant(v), e));
    }
    if let Some(r) = parse_define_expression(s, i) {
        return Some(r);
    }
    parse_define_deferred(s, i)
}

/// Reads `#define NAME ` at `i`: the start and end of the name and the start
/// of the value.
fn define_head_at(s: &[char], i: usize) -> (r: Option<(usize, usize, usize)>)
    requires
        i <= s@.len(),
    ensures
        r is Some == define_head(s@, i as int) is Some,
        r matches Some((a, b, c)) ==> define_head(s@, i as int) == Some((a as int, b as int, c as int))
            && i < a < b < c <= s@.len(),
{
    let kw = define_keyword();
    if s.len() - i < 7 || !starts_with_at(s, i, kw.as_slice()) {
        return None;
    }
    let a = scan(s, i + 7, CharClass::HSpace);
    if a == i + 7 {
        return None;
    }
    let b = match identifier(s, a) {
        Some(b) => b,
        None => return None,
    };
    let c = scan(s, b, CharClass::HSpace);
    if c == b {
        return None;
    }
    Some((a, b, c))
}

/// Whether a line that begins in `s[m..k]` starts, after blanks, with
/// `#define` before `k`.
fn define_line_within(s: &[char], m: usize, k: usize) -> (r: bool)
    requires
        m <= k <= s@.len(),
    ensures
        r == define_line_in(s@, m as int, k as int),
{
    let kw = define_keyword();
    let mut i: usize = m;
    while i < k
        invariant
            m <= i <= k <= s@.len(),
            kw@ == define_kw(),
            define_line_in(s@, m as int, k as int) == define_line_in(s@, i as int, k as int),
        decreases k - i,
    {
        if s[i] == '\n' {
            let b = scan(s, i + 1, CharClass::HSpace);
            if b < k && starts_with_at(s, b, kw.as_slice()) {
                return true;
            }
        }
        i = i + 1;
    }
    false
}

/// Finds a comment after blanks at `f` that is never closed or that reaches
/// a `#define` line before it closes.
fn runaway_comment_at(s: &[char], f: usize) -> (r: Option<usize>)
    requires
        f <= s@.len(),
    ensures
        r is Some == runaway_comment(s@, f as int) is Some,
        r matches Some(g) ==> runaway_comment(s@, f as int) == Some(g as int) && g <= s@.len(),
{
    let g = scan(s, f, CharClass::HSpace);
    let open = vec!['/', '*'];
    assert(open@ =~= comment_open());
    if s.len() - g < 2 || !starts_with_at(s, g, open.as_slice()) {
        return None;
    }
    match find_comment_close(s, g + 2) {
        Some(k) => if define_line_within(s, g + 2, k) {
            Some(g)
        } else {
            None
        },
        None => Some(g),
    }
}

/// Parses the define at `i`, returning it and the position just after it.
pub fn parse_define_at(s: &[char], i: usize) -> (r: Option<(Define, usize)>)
    requires
        i <= s@.len(),
    ensures
        r is Some == define_at(s@, i as int) is Some,
        r matches Some((d, e)) ==> define_at(s@, i as int) == Some((d@, e as int)) && i < e
            <= s@.len(),
{
    let (a, b, c) = match define_head_at(s, i) {
        Some(h) => h,
        None => return None,
    };
    let (expression, f) = match parse_define_value(s, c) {
        Some(p) => p,
        None => return None,
    };
    let name = string_of(s, a, b);
    let g = scan(s, f, CharClass::HSpace);
    if g > f {
        let open = vec!['/', '*'];
        assert(open@ =~= comment_open());
        if s.len() - g >= 2 && starts_with_at(s, g, open.as_slice()) {
            if let Some(k) = find_comment_close(s, g + 2) {
                if !define_line_within(s, g + 2, k) {
                    let comment = collapse_range(s, g + 2, k);
                    return Some((Define { name, expression, comment: Some(comment) }, k + 2));
                }
            }
        }
    }
    Some((Define { name, expression, comment: None }, f))
}

/// Skips whitespace and closed comments from `i` on.
pub fn skip_space_at(s: &[char], i: usize) -> (r: usize)
    requires
        i <= s@.len(),
    ensures
        r == skip_space(s@, i as int),
        i <= r <= s@.len(),
{
    let open = vec!['/', '*'];
    assert(open@ =~= comment_open());
    let mut j: usize = i;
    loop
        invariant
            i <= j <= s@.len(),
            open@ == comment_open(),
            skip_space(s@, i as int) == skip_space(s@, j as int),
        decreases s@.len() - j,
    {
        if j < s.len() && char_in_class(s[j], CharClass::Space) {
            j = j + 1;
        } else if s.len() - j >= 2 && starts_with_at(s, j, open.as_slice()) {
            match find_comment_close(s, j + 2) {
                Some(k) => {
                    assert(find_close(s@, j + 2) == Some(k as int));
                    assert(comment_at(s@, j as int) == Some(k as int));
                    j = k + 2;
                },
                None => {
                    return j;
                },
            }
        } else {
            return j;
        }
    }
}

/// A define may be followed only by the end of the text, whitespace or a
/// comment.
pub open spec fn ends_value(s: Seq<char>, k: int) -> bool {
    k == s.len() || (0 <= k < s.len() && in_class(s[k], CharClass::Space)) || starts_at(
        s,
        k,
        comment_open(),
    )
}

/// The defines from `i` up to `#endif`, with whitespace and comments between
/// them, or the first error and where it stands.
pub open spec fn body_at(s: Seq<char>, i: int) -> Result<Seq<DefineModel>, (ParseErrorKind, int)>
    decreases s.len() - i,
{
    let j = skip_space(s, i);
    if starts_at(s, j, comment_open()) {
        Err((ParseErrorKind::UnterminatedComment, j))
    } else if starts_at(s, j, define_kw()) {
        match define_head(s, j) {
            None => Err((ParseErrorKind::MalformedDefine, j)),
            Some((a, b, c)) => match define_at(s, j) {
                None => Err((ParseErrorKind::UnrecognizedValueGrammar, c)),
                Some((d, k)) => if d.comment is None && runaway_comment(s, k) is Some {
                    Err((ParseErrorKind::UnterminatedComment, runaway_comment(s, k)->Some_0))
                } else if !ends_value(s, k) {
                    Err((ParseErrorKind::UnrecognizedValueGrammar, k))
                } else if i < k <= s.len() {
                    // `k` always lies past `i`; the test keeps the recursion
                    // visibly decreasing.
                    match body_at(s, k) {
                        Ok(ds) => Ok(seq![d] + ds),
                        Err(e) => Err(e),
                    }
                } else {
                    Err((ParseErrorKind::MissingEndif, k))
                },
            },
        }
    } else if starts_at(s, j, endif_kw()) {
        Ok(Seq::empty())
    } else {
        Err((ParseErrorKind::MissingEndif, j))
    }
}

/// `#ifndef`, blanks, the guard name, blanks, then the end of the line or
/// of the text at `i`: where the name starts and ends, and where the line
/// ends.
pub open spec fn ifndef_guard(s: Seq<char>, i: int) -> Option<(int, int, int)> {
    let a = run_end(s, i + 7, CharClass::HSpace);
    if starts_at(s, i, ifndef_kw()) && a > i + 7 {
        match identifier_end(s, a) {
            Some(b) => {
                let r = run_end(s, b, CharClass::HSpace);
                if r == s.len() || s[r] == '\n' {
                    Some((a, b, r))
                } else {
                    None
                }
            },
            None => None,
        }
    } else {
        None
    }
}

/// `#define`, blanks, a name, blanks and a line feed at `i`, with no value:
/// where the name starts and ends, and the position after the line.
pub open spec fn guard_define(s: Seq<char>, i: int) -> Option<(int, int, int)> {
    let a = run_end(s, i + 7, CharClass::HSpace);
    if starts_at(s, i, define_kw()) && a > i + 7 {
        match identifier_end(s, a) {
            Some(b) => {
                let u = run_end(s, b, CharClass::HSpace);
                if u < s.len() && s[u] == '\n' {
                    Some((a, b, u + 1))
                } else {
                    None
                }
            },
            None => None,
        }
    } else {
        None
    }
}

/// The position after the include guard: `#ifndef GUARD` on a line of its
/// own, then `#define GUARD` with the same name and no value on the next.
pub open spec fn preamble_end(s: Seq<char>) -> Option<int> {
    match ifndef_guard(s, skip_space(s, 0)) {
        Some((a, b, r)) => if r < s.len() {
            match guard_define(s, r + 1) {
                Some((c, d, u)) => if s.subrange(c, d) == s.subrange(a, b) {
                    Some(u)
                } else {
                    None
                },
                None => None,
            }
        } else {
            None
        },
        None => None,
    }
}

/// A whole header: leading comments, the include guard, the defines and
/// `#endif`. What follows `#endif` is not read.
pub open spec fn header(s: Seq<char>) -> Result<Seq<DefineModel>, (ParseErrorKind, int)> {
    let p = skip_space(s, 0);
    if starts_at(s, p, comment_open()) {
        Err((ParseErrorKind::UnterminatedComment, p))
    } else {
        match preamble_end(s) {
            Some(u) => body_at(s, u),
            None => Err((ParseErrorKind::MalformedPreamble, p)),
        }
    }
}

/// The `Result` of a parse, seen through the models of its defines.
pub open spec fn parse_result(r: Result<Vec<Define>, (ParseErrorKind, usize)>) -> Result<
    Seq<DefineModel>,
    (ParseErrorKind, int),
> {
    match r {
        Ok(ds) => Ok(models(ds@)),
        Err((k, o)) => Err((k, o as int)),
    }
}

/// The zero-based line of position `o`: the number of line feeds before it.
pub open spec fn line_of(s: Seq<char>, o: int) -> int
    decreases o,
{
    if o <= 0 {
        0
    } else {
        line_of(s, o - 1) + if s[o - 1] == '\n' {
            1int
        } else {
            0
        }
    }
}

fn line_at(s: &[char], o: usize) -> (r: usize)
    requires
        o <= s@.len(),
    ensures
        r == line_of(s@, o as int),
{
    let mut lines: usize = 0;
    let mut i: usize = 0;
    while i < o
        invariant
            i <= o <= s@.len(),
            lines <= i,
            lines == line_of(s@, i as int),
        decreases o - i,
    {
        if s[i] == '\n' {
            lines = lines + 1;
        }
        i = i + 1;
    }
    lines
}

/// Parses the defines from `start` up to `#endif`.
fn parse_body(s: &[char], start: usize) -> (r: Result<Vec<Define>, (ParseErrorKind, usize)>)
    requires
        start <= s@.len(),
    ensures
        parse_result(r) == body_at(s@, start as int),
        r matches Err((_, o)) ==> o <= s@.len(),
{
    let open = vec!['/', '*'];
    let n = s.len();
    assert(open@ =~= comment_open());
    let kw = define_keyword();
    let end_kw = endif_keyword();
    let mut out: Vec<Define> = Vec::new();
    let mut i: usize = start;
    loop
        invariant
            start <= i <= s@.len(),
            n == s@.len(),
            open@ == comment_open(),
            kw@ == define_kw(),
            end_kw@ == endif_kw(),
            body_at(s@, start as int) == match body_at(s@, i as int) {
                Ok(ds) => Ok(models(out@) + ds),
                Err(e) => Err(e),
            },
        decreases s@.len() - i,
    {
        let j = skip_space_at(s, i);
        if starts_with_at(s, j, open.as_slice()) {
            return Err((ParseErrorKind::UnterminatedComment, j));
        }
        if starts_with_at(s, j, end_kw.as_slice()) {
            assert(models(out@) + Seq::<DefineModel>::empty() =~= models(out@));
            return Ok(out);
        }
        if !starts_with_at(s, j, kw.as_slice()) {
            return Err((ParseErrorKind::MissingEndif, j));
        }
        let c = match define_head_at(s, j) {
            Some((_, _, c)) => c,
            None => return Err((ParseErrorKind::MalformedDefine, j)),
        };
        let (d, k) = match parse_define_at(s, j) {
            Some(p) => p,
            None => return Err((ParseErrorKind::UnrecognizedValueGrammar, c)),
        };
        if d.comment.is_none() {
            if let Some(g) = runaway_comment_at(s, k) {
                return Err((ParseErrorKind::UnterminatedComment, g));
            }
        }
        let ends = k == n || char_in_class(s[k], CharClass::Space) || starts_with_at(
            s,
            k,
            open.as_slice(),
        );
        if !ends {
            return Err((ParseErrorKind::UnrecognizedValueGrammar, k));
        }
        let ghost prev = models(out@);
        let ghost dm = d@;
        out.push(d);
        assert(models(out@) =~= prev.push(dm));
        proof {
            match body_at(s@, k as int) {
                Ok(ds) => {
                    assert(prev + (seq![dm] + ds) =~= prev.push(dm) + ds);
                },
                Err(e) => {},
            }
        }
        i = k;
    }
}

/// Reads `#ifndef GUARD` at `i`: where the name starts and ends, and where
/// the line ends.
fn consume_ifndef_at(s: &[char], i: usize) -> (r: Option<(usize, usize, usize)>)
    requires
        i <= s@.len(),
    ensures
        r is Some == ifndef_guard(s@, i as int) is Some,
        r matches Some((a, b, e)) ==> ifndef_guard(s@, i as int) == Some(
            (a as int, b as int, e as int),
        ) && i < a < b <= e <= s@.len(),
{
    let kw = ifndef_keyword();
    if s.len() - i < 7 || !starts_with_at(s, i, kw.as_slice()) {
        return None;
    }
    let a = scan(s, i + 7, CharClass::HSpace);
    if a == i + 7 {
        return None;
    }
    let b = match identifier(s, a) {
        Some(b) => b,
        None => return None,
    };
    let e = scan(s, b, CharClass::HSpace);
    if e < s.len() && s[e] != '\n' {
        return None;
    }
    Some((a, b, e))
}

/// Reads `#define GUARD` without value, with its line feed, at `i`: where
/// the name starts and ends, and the position after the line.
fn consume_define_no_value_at(s: &[char], i: usize) -> (r: Option<(usize, usize, usize)>)
    requires
        i <= s@.len(),
    ensures
        r is Some == guard_define(s@, i as int) is Some,
        r matches Some((a, b, e)) ==> guard_define(s@, i as int) == Some(
            (a as int, b as int, e as int),
        ) && i < a < b < e <= s@.len(),
{
    let kw = define_keyword();
    if s.len() - i < 7 || !starts_with_at(s, i, kw.as_slice()) {
        return None;
    }
    let a = scan(s, i + 7, CharClass::HSpace);
    if a == i + 7 {
        return None;
    }
    let b = match identifier(s, a) {
        Some(b) => b,
        None => return None,
    };
    let u = scan(s, b, CharClass::HSpace);
    if u >= s.len() || s[u] != '\n' {
        return None;
    }
    Some((a, b, u + 1))
}

/// Whether `s[a..b]` and `s[c..d]` hold the same characters.
fn same_chars(s: &[char], a: usize, b: usize, c: usize, d: usize) -> (r: bool)
    requires
        a <= b <= s@.len(),
        c <= d <= s@.len(),
    ensures
        r == (s@.subrange(a as int, b as int) == s@.subrange(c as int, d as int)),
{
    if b - a != d - c {
        assert(s@.subrange(a as int, b as int).len() != s@.subrange(c as int, d as int).len());
        return false;
    }
    let mut m: usize = 0;
    assert(s@.subrange(a as int, a + 0) =~= s@.subrange(c as int, c + 0));
    while m < b - a
        invariant
            m <= b - a == d - c,
            a <= b <= s@.len(),
            c <= d <= s@.len(),
            s@.subrange(a as int, a + m) == s@.subrange(c as int, c + m),
        decreases b - a - m,
    {
        if s[a + m] != s[c + m] {
            assert(s@.subrange(a as int, b as int)[m as int] != s@.subrange(c as int, d as int)[m as int]);
            return false;
        }
        assert(s@.subrange(a as int, a + m + 1) =~= s@.subrange(a as int, a + m).push(s@[a + m]));
        assert(s@.subrange(c as int, c + m + 1) =~= s@.subrange(c as int, c + m).push(s@[c + m]));
        m = m + 1;
    }
    assert(s@.subrange(a as int, a + m) =~= s@.subrange(a as int, b as int));
    assert(s@.subrange(c as int, c + m) =~= s@.subrange(c as int, d as int));
    true
}

/// Parses a whole header, reporting a failure by its kind and offset.
fn parse_header(s: &[char]) -> (r: Result<Vec<Define>, (ParseErrorKind, usize)>)
    ensures
        parse_result(r) == header(s@),
        r matches Err((_, o)) ==> o <= s@.len(),
{
    let open = vec!['/', '*'];
    assert(open@ =~= comment_open());
    let p = skip_space_at(s, 0);
    if starts_with_at(s, p, open.as_slice()) {
        return Err((ParseErrorKind::UnterminatedComment, p));
    }
    let malformed = (ParseErrorKind::MalformedPreamble, p);
    let (a, b, r) = match consume_ifndef_at(s, p) {
        Some(t) => t,
        None => return Err(malformed),
    };
    if r >= s.len() {
        return Err(malformed);
    }
    let (c, d, u) = match consume_define_no_value_at(s, r + 1) {
        Some(t) => t,
        None => return Err(malformed),
    };
    if !same_chars(s, c, d, a, b) {
        return Err(malformed);
    }
    parse_body(s, u)
}

/// Parses a whole header.
pub fn parse_file(input: &str) -> (r: Result<Vec<Define>, ParseError>)
    ensures
        match r {
            Ok(ds) => header(input@) == Ok::<Seq<DefineModel>, (ParseErrorKind, int)>(models(ds@)),
            Err(e) => header(input@) == Err::<Seq<DefineModel>, (ParseErrorKind, int)>(
                (e.kind, e.offset as int),
            ) && e.line == line_of(input@, e.offset as int),
        },
{
    let v = to_chars(input);
    let s = v.as_slice();
    match parse_header(s) {
        Ok(ds) => Ok(ds),
        Err((kind, offset)) => {
            Err(ParseError { kind, offset, line: line_at(s, offset) })
        },
    }
}

/// The defines that follow `i` one after another, each after whitespace and
/// comments, and the position after the last of them.
pub open spec fn defines_from(s: Seq<char>, i: int) -> (Seq<DefineModel>, int)
    decreases s.len() - i,
{
    match define_at(s, skip_space(s, i)) {
        Some((d, k)) => if i < k <= s.len() {
            (seq![d] + defines_from(s, k).0, defines_from(s, k).1)
        } else {
            (Seq::empty(), i)
        },
        None => (Seq::empty(), i),
    }
}

/// Parses the define at the start of `input`; returns the text after it and
/// the define.
pub fn parse_define(input: &str) -> (r: Option<(String, Define)>)
    ensures
        r is Some == define_at(input@, 0) is Some,
        r matches Some((rest, d)) ==> exists|e: int|
            define_at(input@, 0) == Some((d@, e)) && rest@ == input@.subrange(e, input@.len() as int),
{
    let v = to_chars(input);
    let s = v.as_slice();
    match parse_define_at(s, 0) {
        Some((d, e)) => Some((string_of(s, e, s.len()), d)),
        None => None,
    }
}

/// Parses the defines at the start of `input`, each after whitespace and
/// comments; returns the text after the last one and the defines.
pub fn parse_defines(input: &str) -> (r: (String, Vec<Define>))
    ensures
        models(r.1@) == defines_from(input@, 0).0,
        r.0@ == input@.subrange(defines_from(input@, 0).1, input@.len() as int),
{
    let v = to_chars(input);
    let s = v.as_slice();
    let mut out: Vec<Define> = Vec::new();
    let mut i: usize = 0;
    loop
        invariant
            i <= s@.len(),
            s@ == input@,
            defines_from(s@, 0).0 == models(out@) + defines_from(s@, i as int).0,
            defines_from(s@, 0).1 == defines_from(s@, i as int).1,
        decreases s@.len() - i,
    {
        let j = skip_space_at(s, i);
        match parse_define_at(s, j) {
            Some((d, k)) => {
                let ghost prev = models(out@);
                let ghost dm = d@;
                out.push(d);
                assert(models(out@) =~= prev.push(dm));
                assert(prev + (seq![dm] + defines_from(s@, k as int).0) =~= prev.push(dm)
                    + defines_from(s@, k as int).0);
                i = k;
            },
            None => {
                assert(models(out@) + Seq::<DefineModel>::empty() =~= models(out@));
                return (string_of(s, i, s.len()), out);
            },
        }
    }
}

/// Skips whitespace and closed comments at the start of `input`; returns the
/// text after them.
pub fn consume_ws_and_comments(input: &str) -> (r: String)
    ensures
        r@ == input@.subrange(skip_space(input@, 0), input@.len() as int),
{
    let v = to_chars(input);
    let s = v.as_slice();
    let j = skip_space_at(s, 0);
    string_of(s, j, s.len())
}

/// Reads `#ifndef GUARD` at the start of `input`; returns the text after it,
/// from the line's end on.
pub fn consume_ifndef(input: &str) -> (r: Option<String>)
    ensures
        r is Some == ifndef_guard(input@, 0) is Some,
        r matches Some(rest) ==> ifndef_guard(input@, 0) matches Some((_, _, e)) && rest@
            == input@.subrange(e, input@.len() as int),
{
    let v = to_chars(input);
    let s = v.as_slice();
    match consume_ifndef_at(s, 0) {
        Some((_, _, e)) => Some(string_of(s, e, s.len())),
        None => None,
    }
}

/// Reads `#define GUARD` without value, with its line feed, at the start of
/// `input`; returns the text after it.
pub fn consume_define_no_value(input: &str) -> (r: Option<String>)
    ensures
        r is Some == guard_define(input@, 0) is Some,
        r matches Some(rest) ==> guard_define(input@, 0) matches Some((_, _, e)) && rest@
            == input@.subrange(e, input@.len() as int),
{
    let v = to_chars(input);
    let s = v.as_slice();
    match consume_define_no_value_at(s, 0) {
        Some((_, _, e)) => Some(string_of(s, e, s.len())),
        None => None,
    }
}

/// A name that matches `[A-Za-z_][A-Za-z0-9_]*`.
pub open spec fn is_identifier(name: Seq<char>) -> bool {
    name.len() > 0 && is_ident_start(name[0]) && all_in_class(
        name,
        0,
        name.len() as int,
        CharClass::Ident,
    )
}

/// `#define NAME VALUE`, with one space on either side of the name and the
/// value in decimal.
pub open spec fn define_line(name: Seq<char>, value: u32) -> Seq<char> {
    define_kw() + seq![' '] + name + seq![' '] + decimal(value as nat)
}

/// Writes `#define NAME VALUE`, the value in decimal.
pub fn format_define(name: &str, value: u32) -> (r: String)
    ensures
        r@ == define_line(name@, value),
{
    let mut r = String::new();
    let kw = define_keyword();
    push_chars(&mut r, kw.as_slice());
    push_char(&mut r, ' ');
    let v = to_chars(name);
    push_chars(&mut r, v.as_slice());
    push_char(&mut r, ' ');
    push_decimal(&mut r, value);
    assert(r@ =~= define_line(name@, value));
    r
}

/// A define written by `format_define` reads back as the same name and value,
/// with no comment, and the whole line is read.
#[verifier::spinoff_prover]
#[verifier::rlimit(40)]
pub proof fn lemma_define_line_round_trip(name: Seq<char>, value: u32)
    requires
        is_identifier(name),
    ensures
        define_at(define_line(name, value), 0) == Some(
            (
                DefineModel { name, expression: ExprModel::Constant(value), comment: None },
                define_line(name, value).len() as int,
            ),
        ),
{
    let s = define_line(name, value);
    let n = name.len() as int;
    let d = decimal(value as nat);
    lemma_decimal(value as nat);
    assert(s.len() == 9 + n + d.len());
    assert(s.subrange(0, 7) =~= define_kw());
    assert(s[7] == ' ');
    assert(forall|m: int| 0 <= m < n ==> s[8 + m] == name[m]);
    assert(forall|m: int| 0 <= m < d.len() ==> s[9 + n + m] == d[m]);
    assert(s[8 + n] == ' ');
    assert(s[8] == name[0]);
    lemma_run_end_exact(s, 7, 8, CharClass::HSpace);
    assert(all_in_class(s, 8, 8 + n, CharClass::Ident)) by {
        assert forall|m: int| 8 <= m < 8 + n implies in_class(#[trigger] s[m], CharClass::Ident) by {
            assert(s[8 + (m - 8)] == name[m - 8]);
            assert(in_class(name[m - 8], CharClass::Ident));
        }
    }
    lemma_run_end_exact(s, 8, 8 + n, CharClass::Ident);
    assert(in_class(d[0], CharClass::Digit));
    assert(s[9 + n] == d[0]);
    lemma_run_end_exact(s, 8 + n, 9 + n, CharClass::HSpace);
    assert(define_head(s, 0) == Some((8int, 8 + n, 9 + n)));
    assert(all_in_class(s, 9 + n, s.len() as int, CharClass::Digit)) by {
        assert forall|m: int| 9 + n <= m < s.len() implies in_class(#[trigger] s[m], CharClass::Digit) by {
            assert(s[9 + n + (m - 9 - n)] == d[m - 9 - n]);
            assert(in_class(d[m - 9 - n], CharClass::Digit));
        }
    }
    if d.len() >= 2 {
        assert(in_class(d[1], CharClass::Digit));
        assert(s[10 + n] == d[1]);
        assert(s.subrange(9 + n, 11 + n)[1] != hex_prefix()[1]);
    }
    assert(!starts_at(s, 9 + n, hex_prefix()));
    lemma_run_end_exact(s, 9 + n, s.len() as int, CharClass::Digit);
    assert(s.subrange(9 + n, s.len() as int) =~= d);
    assert(dec_number(s, 9 + n) == Some((value as int, s.len() as int)));
    assert(value_at(s, 9 + n) == Some((ExprModel::Constant(value), s.len() as int)));
    assert(trailing_comment(s, s.len() as int) is None);
    assert(s.subrange(8, 8 + n) =~= name);
}

/// A hexadecimal value is read to eight digits at most: where nine or more
/// digits follow `0x`, the value is that of the first eight, and reading
/// stops after them.
pub proof fn lemma_hex_capped(s: Seq<char>, i: int)
    requires
        starts_at(s, i, hex_prefix()),
        i + 11 <= s.len(),
        all_in_class(s, i + 2, i + 11, CharClass::HexDigit),
    ensures
        value_at(s, i) == Some(
            (
                ExprModel::Constant(digits_value(s.subrange(i + 2, i + 10), 16) as u32),
                i + 10,
            ),
        ),
{
    lemma_run_end_reaches(s, i + 2, i + 11, CharClass::HexDigit);
}

/// Text that, after whitespace and closed comments, does not start with
/// `#ifndef` fails as a malformed preamble, and yields no defines.
pub proof fn lemma_missing_guard(s: Seq<char>)
    requires
        !starts_at(s, skip_space(s, 0), ifndef_kw()),
        !starts_at(s, skip_space(s, 0), comment_open()),
    ensures
        header(s) == Err::<Seq<DefineModel>, (ParseErrorKind, int)>(
            (ParseErrorKind::MalformedPreamble, skip_space(s, 0)),
        ),
{
}

/// A comment that opens after leading whitespace and is never closed fails
/// the whole parse as unterminated.
pub proof fn lemma_unclosed_leading_comment(s: Seq<char>, j: int)
    requires
        0 <= j <= s.len(),
        all_in_class(s, 0, j, CharClass::Space),
        starts_at(s, j, comment_open()),
        find_close(s, j + 2) is None,
    ensures
        header(s) == Err::<Seq<DefineModel>, (ParseErrorKind, int)>(
            (ParseErrorKind::UnterminatedComment, j),
        ),
{
    lemma_skip_blanks(s, 0, j);
    assert(s.subrange(j, j + 2)[0] == '/');
}

/// Among the defines, a comment that opens after whitespace and is never
/// closed fails the parse as unterminated.
pub proof fn lemma_unclosed_comment_among_defines(s: Seq<char>, i: int, j: int)
    requires
        0 <= i <= j <= s.len(),
        all_in_class(s, i, j, CharClass::Space),
        starts_at(s, j, comment_open()),
        find_close(s, j + 2) is None,
    ensures
        body_at(s, i) == Err::<Seq<DefineModel>, (ParseErrorKind, int)>(
            (ParseErrorKind::UnterminatedComment, j),
        ),
{
    lemma_skip_blanks(s, i, j);
    assert(s.subrange(j, j + 2)[0] == '/');
}

/// `#define NAME 0xVALUE`, with one space on either side of the name and the
/// value in lower-case hexadecimal.
pub open spec fn define_hex_line(name: Seq<char>, value: u32) -> Seq<char> {
    define_kw() + seq![' '] + name + seq![' '] + hex_prefix() + hex_digits(value as nat)
}

/// Writes `#define NAME 0xVALUE`, the value in lower-case hexadecimal.
pub fn format_define_hex(name: &str, value: u32) -> (r: String)
    ensures
        r@ == define_hex_line(name@, value),
{
    let mut r = String::new();
    let kw = define_keyword();
    push_chars(&mut r, kw.as_slice());
    push_char(&mut r, ' ');
    let v = to_chars(name);
    push_chars(&mut r, v.as_slice());
    push_char(&mut r, ' ');
    push_char(&mut r, '0');
    push_char(&mut r, 'x');
    push_hex(&mut r, value);
    assert(r@ =~= define_hex_line(name@, value));
    r
}

/// A define written by `format_define_hex` reads back as the same name and
/// value, with no comment, and the whole line is read.
#[verifier::spinoff_prover]
#[verifier::rlimit(40)]
pub proof fn lemma_define_hex_line_round_trip(name: Seq<char>, value: u32)
    requires
        is_identifier(name),
    ensures
        define_at(define_hex_line(name, value), 0) == Some(
            (
                DefineModel { name, expression: ExprModel::Constant(value), comment: None },
                define_hex_line(name, value).len() as int,
            ),
        ),
{
    let s = define_hex_line(name, value);
    let n = name.len() as int;
    let d = hex_digits(value as nat);
    lemma_u32_hex_digits(value);
    assert(s.len() == 11 + n + d.len());
    assert(s.subrange(0, 7) =~= define_kw());
    assert(s[7] == ' ');
    assert(forall|m: int| 0 <= m < n ==> s[8 + m] == name[m]);
    assert(forall|m: int| 0 <= m < d.len() ==> s[11 + n + m] == d[m]);
    assert(s[8 + n] == ' ');
    assert(s[8] == name[0]);
    assert(s[9 + n] == '0');
    lemma_run_end_exact(s, 7, 8, CharClass::HSpace);
    assert(all_in_class(s, 8, 8 + n, CharClass::Ident)) by {
        assert forall|m: int| 8 <= m < 8 + n implies in_class(#[trigger] s[m], CharClass::Ident) by {
            assert(s[8 + (m - 8)] == name[m - 8]);
            assert(in_class(name[m - 8], CharClass::Ident));
        }
    }
    lemma_run_end_exact(s, 8, 8 + n, CharClass::Ident);
    lemma_run_end_exact(s, 8 + n, 9 + n, CharClass::HSpace);
    assert(define_head(s, 0) == Some((8int, 8 + n, 9 + n)));
    assert(s.subrange(9 + n, 11 + n) =~= hex_prefix());
    assert(all_in_class(s, 11 + n, s.len() as int, CharClass::HexDigit)) by {
        assert forall|m: int| 11 + n <= m < s.len() implies in_class(
            #[trigger] s[m],
            CharClass::HexDigit,
        ) by {
            assert(s[11 + n + (m - 11 - n)] == d[m - 11 - n]);
            assert(in_class(d[m - 11 - n], CharClass::HexDigit));
        }
    }
    lemma_run_end_exact(s, 11 + n, s.len() as int, CharClass::HexDigit);
    assert(s.subrange(11 + n, s.len() as int) =~= d);
    assert(hex_number(s, 11 + n) == Some((value as int, s.len() as int)));
    assert(value_at(s, 9 + n) == Some((ExprModel::Constant(value), s.len() as int)));
    assert(trailing_comment(s, s.len() as int) is None);
    assert(s.subrange(8, 8 + n) =~= name);
}

/// A parsed define's comment is one single-spaced line: no line feed, tab
/// or carriage return, no two spaces in a row and none at either end,
/// however many lines the comment ran over in the text.
pub proof fn lemma_define_comment_one_line(s: Seq<char>, i: int)
    requires
        define_at(s, i) is Some,
    ensures
        define_at(s, i)->Some_0.0.comment matches Some(t) ==> is_single_spaced(t) && !has_line_feed(
            t,
        ),
{
    let f = match define_head(s, i) {
        Some((a, b, c)) => value_at(s, c)->Some_0.1,
        None => 0,
    };
    match trailing_comment(s, f) {
        Some((g, k)) => {
            let t = collapse(s.subrange(g + 2, k));
            lemma_collapse_single_spaced(s.subrange(g + 2, k));
            assert forall|m: int| 0 <= m < t.len() implies t[m] != '\n' by {
                assert(t[m] == ' ' || !in_class(t[m], CharClass::Space));
            }
        },
        None => {},
    }
}

/// Among the defines, a define whose trailing comment is never closed, or
/// reaches a line that starts with `#define` before it closes, fails the
/// parse as unterminated, at the comment's opening.
pub proof fn lemma_comment_into_define(s: Seq<char>, i: int, j: int)
    requires
        0 <= i <= j <= s.len(),
        all_in_class(s, i, j, CharClass::Space),
        define_at(s, j) matches Some((d, k)) && d.comment is None && runaway_comment(s, k) is Some,
    ensures
        body_at(s, i) == Err::<Seq<DefineModel>, (ParseErrorKind, int)>(
            (
                ParseErrorKind::UnterminatedComment,
                runaway_comment(s, define_at(s, j)->Some_0.1)->Some_0,
            ),
        ),
{
    lemma_skip_blanks(s, i, j);
    assert(s.subrange(j, j + 7)[0] == '#');
    assert(skip_space(s, j) == j);
}

} // verus!
