//! Boolean filter expressions with two surface syntaxes and one canonical
//! form.
//!
//! A filter reaches the normalizer either as text (`a = 3 AND NOT b < 2`)
//! or as a structured expression tree in JSON (`{"op": "and", "args":
//! [...]}`).  Both parse here into one canonical [`Expr`], so everything
//! downstream — serialization included — is independent of which surface
//! form the caller used.  The grammar covered is the boolean core of the
//! common filter language: comparisons between properties and literals,
//! null tests, conjunction, disjunction, and negation.
//!
//! Numbers are carried as their decimal literal text, exactly as written.

use vstd::prelude::*;

use crate::error::Error;
use crate::json::JsonValue;

verus! {

/// A comparison operator.
#[derive(Debug, Clone, Copy, PartialEq, Eq, Structural)]
pub enum CmpOp {
    /// `=`
    Eq,
    /// `<>`
    Ne,
    /// `<`
    Lt,
    /// `<=`
    Le,
    /// `>`
    Gt,
    /// `>=`
    Ge,
}

/// One side of a comparison.
#[derive(Debug)]
pub enum Operand {
    /// A property reference.
    Property(String),
    /// A string literal.
    Str(String),
    /// A numeric literal, as its decimal text.
    Num(String),
    /// A boolean literal.
    Bool(bool),
    /// The null literal.
    Null,
}

/// A canonical filter expression.
#[derive(Debug)]
pub enum Expr {
    /// A binary comparison.
    Cmp(CmpOp, Operand, Operand),
    /// A null test.
    IsNull(Operand),
    /// Conjunction.
    And(Box<Expr>, Box<Expr>),
    /// Disjunction.
    Or(Box<Expr>, Box<Expr>),
    /// Negation.
    Not(Box<Expr>),
}

// ---------------------------------------------------------------------
// Character classes and well-formedness
// ---------------------------------------------------------------------

/// Whitespace between tokens of the text form.
pub open spec fn is_ws(c: char) -> bool {
    c == ' ' || c == '\t' || c == '\n' || c == '\r'
}

/// A decimal digit.
pub open spec fn is_digit(c: char) -> bool {
    48 <= (c as u32) <= 57
}

/// A character that may start an identifier.
pub open spec fn is_ident_start(c: char) -> bool {
    (65 <= (c as u32) <= 90) || (97 <= (c as u32) <= 122) || c == '_'
}

/// A character that may continue an identifier; dots and colons keep
/// property paths like `properties.datetime` one token.
pub open spec fn is_ident_char(c: char) -> bool {
    is_ident_start(c) || is_digit(c) || c == '.' || c == ':'
}

/// A character that may appear in a numeric token.
pub open spec fn is_num_char(c: char) -> bool {
    is_digit(c) || c == '-' || c == '+' || c == '.' || c == 'e' || c == 'E'
}

/// Case-insensitive match of one character against its two cases.
pub open spec fn eq_ci(c: char, up: char, lo: char) -> bool {
    c == up || c == lo
}

/// The index right after the digit run starting at `i`.
pub open spec fn digits_end(s: Seq<char>, i: int) -> int
    decreases s.len() - i,
{
    if 0 <= i < s.len() && is_digit(s[i]) {
        digits_end(s, i + 1)
    } else {
        i
    }
}

/// A well-formed numeric literal: an optional minus sign, digits, an
/// optional fraction, an optional exponent, nothing else.
pub open spec fn num_wf(s: Seq<char>) -> bool {
    let a: int = if s.len() > 0 && s[0] == '-' {
        1
    } else {
        0
    };
    let b = digits_end(s, a);
    let c: int = if b < s.len() && s[b] == '.' {
        let d = digits_end(s, b + 1);
        if d > b + 1 {
            d
        } else {
            -1
        }
    } else {
        b
    };
    b > a && c >= 0 && {
        let e: int = if c < s.len() && (s[c] == 'e' || s[c] == 'E') {
            let f: int = if c + 1 < s.len() && (s[c + 1] == '+' || s[c + 1] == '-') {
                c + 2
            } else {
                c + 1
            };
            let g = digits_end(s, f);
            if g > f {
                g
            } else {
                -1
            }
        } else {
            c
        };
        e == s.len()
    }
}

/// The keywords of the text form, matched case-insensitively.
pub open spec fn kw_and(w: Seq<char>) -> bool {
    w.len() == 3 && eq_ci(w[0], 'A', 'a') && eq_ci(w[1], 'N', 'n') && eq_ci(w[2], 'D', 'd')
}

/// See [`kw_and`].
pub open spec fn kw_or(w: Seq<char>) -> bool {
    w.len() == 2 && eq_ci(w[0], 'O', 'o') && eq_ci(w[1], 'R', 'r')
}

/// See [`kw_and`].
pub open spec fn kw_not(w: Seq<char>) -> bool {
    w.len() == 3 && eq_ci(w[0], 'N', 'n') && eq_ci(w[1], 'O', 'o') && eq_ci(w[2], 'T', 't')
}

/// See [`kw_and`].
pub open spec fn kw_is(w: Seq<char>) -> bool {
    w.len() == 2 && eq_ci(w[0], 'I', 'i') && eq_ci(w[1], 'S', 's')
}

/// See [`kw_and`].
pub open spec fn kw_null(w: Seq<char>) -> bool {
    w.len() == 4 && eq_ci(w[0], 'N', 'n') && eq_ci(w[1], 'U', 'u') && eq_ci(w[2], 'L', 'l')
        && eq_ci(w[3], 'L', 'l')
}

/// See [`kw_and`].
pub open spec fn kw_true(w: Seq<char>) -> bool {
    w.len() == 4 && eq_ci(w[0], 'T', 't') && eq_ci(w[1], 'R', 'r') && eq_ci(w[2], 'U', 'u')
        && eq_ci(w[3], 'E', 'e')
}

/// See [`kw_and`].
pub open spec fn kw_false(w: Seq<char>) -> bool {
    w.len() == 5 && eq_ci(w[0], 'F', 'f') && eq_ci(w[1], 'A', 'a') && eq_ci(w[2], 'L', 'l')
        && eq_ci(w[3], 'S', 's') && eq_ci(w[4], 'E', 'e')
}

/// Any keyword at all.
pub open spec fn is_keyword(w: Seq<char>) -> bool {
    kw_and(w) || kw_or(w) || kw_not(w) || kw_is(w) || kw_null(w) || kw_true(w) || kw_false(w)
}

/// A well-formed property name: a plain identifier that is not a keyword.
pub open spec fn ident_wf(w: Seq<char>) -> bool {
    w.len() > 0 && is_ident_start(w[0]) && (forall|k: int| 0 <= k < w.len() ==> is_ident_char(
        #[trigger] w[k],
    )) && !is_keyword(w)
}

/// A well-formed string literal body: free of the quote character, which
/// the text form cannot carry.
pub open spec fn strlit_wf(w: Seq<char>) -> bool {
    forall|k: int| 0 <= k < w.len() ==> #[trigger] w[k] != '\''
}

// ---------------------------------------------------------------------
// Specification-level expressions
// ---------------------------------------------------------------------

/// One side of a comparison, at the specification level.
pub enum OperandView {
    /// A property reference.
    Property(Seq<char>),
    /// A string literal.
    Str(Seq<char>),
    /// A numeric literal, as its decimal text.
    Num(Seq<char>),
    /// A boolean literal.
    Bool(bool),
    /// The null literal.
    Null,
}

/// A canonical filter expression, at the specification level.
pub enum ExprView {
    /// A binary comparison.
    Cmp(CmpOp, OperandView, OperandView),
    /// A null test.
    IsNull(OperandView),
    /// Conjunction.
    And(Box<ExprView>, Box<ExprView>),
    /// Disjunction.
    Or(Box<ExprView>, Box<ExprView>),
    /// Negation.
    Not(Box<ExprView>),
}

impl View for Operand {
    type V = OperandView;

    open spec fn view(&self) -> OperandView {
        match self {
            Operand::Property(p) => OperandView::Property(p@),
            Operand::Str(s) => OperandView::Str(s@),
            Operand::Num(n) => OperandView::Num(n@),
            Operand::Bool(b) => OperandView::Bool(*b),
            Operand::Null => OperandView::Null,
        }
    }
}

impl View for Expr {
    type V = ExprView;

    open spec fn view(&self) -> ExprView
        decreases self,
    {
        match self {
            Expr::Cmp(op, l, r) => ExprView::Cmp(*op, l@, r@),
            Expr::IsNull(x) => ExprView::IsNull(x@),
            Expr::And(a, b) => ExprView::And(Box::new((**a)@), Box::new((**b)@)),
            Expr::Or(a, b) => ExprView::Or(Box::new((**a)@), Box::new((**b)@)),
            Expr::Not(a) => ExprView::Not(Box::new((**a)@)),
        }
    }
}

/// A well-formed operand view.
pub open spec fn operand_view_wf(x: OperandView) -> bool {
    match x {
        OperandView::Property(p) => ident_wf(p),
        OperandView::Str(s) => strlit_wf(s),
        OperandView::Num(n) => num_wf(n),
        OperandView::Bool(_) => true,
        OperandView::Null => true,
    }
}

/// A well-formed expression view: every literal in it can survive the
/// round trip through either surface form.
pub open spec fn expr_view_wf(e: ExprView) -> bool
    decreases e,
{
    match e {
        ExprView::Cmp(_, l, r) => operand_view_wf(l) && operand_view_wf(r),
        ExprView::IsNull(x) => operand_view_wf(x),
        ExprView::And(a, b) => expr_view_wf(*a) && expr_view_wf(*b),
        ExprView::Or(a, b) => expr_view_wf(*a) && expr_view_wf(*b),
        ExprView::Not(a) => expr_view_wf(*a),
    }
}

// ---------------------------------------------------------------------
// Tokens
// ---------------------------------------------------------------------

/// A token of the text form, at the specification level.
pub enum TokView {
    /// `(`
    LPar,
    /// `)`
    RPar,
    /// `AND`
    And,
    /// `OR`
    Or,
    /// `NOT`
    Not,
    /// `IS`
    Is,
    /// `NULL`
    Null,
    /// `TRUE`
    True,
    /// `FALSE`
    False,
    /// `=`
    Eq,
    /// `<>`
    Ne,
    /// `<`
    Lt,
    /// `<=`
    Le,
    /// `>`
    Gt,
    /// `>=`
    Ge,
    /// An identifier.
    Ident(Seq<char>),
    /// A quoted string literal's body.
    StrLit(Seq<char>),
    /// A numeric literal's text.
    NumLit(Seq<char>),
    /// `,` (never part of a filter, but the word-and-number lexer here is
    /// shared with the geometry text form, which separates positions with
    /// commas).
    Comma,
}

/// A token of the text form.
#[derive(Debug)]
pub enum Tok {
    /// `(`
    LPar,
    /// `)`
    RPar,
    /// `AND`
    And,
    /// `OR`
    Or,
    /// `NOT`
    Not,
    /// `IS`
    Is,
    /// `NULL`
    Null,
    /// `TRUE`
    True,
    /// `FALSE`
    False,
    /// `=`
    Eq,
    /// `<>`
    Ne,
    /// `<`
    Lt,
    /// `<=`
    Le,
    /// `>`
    Gt,
    /// `>=`
    Ge,
    /// An identifier.
    Ident(String),
    /// A quoted string literal's body.
    StrLit(String),
    /// A numeric literal's text.
    NumLit(String),
    /// `,`
    Comma,
}

impl View for Tok {
    type V = TokView;

    open spec fn view(&self) -> TokView {
        match self {
            Tok::LPar => TokView::LPar,
            Tok::RPar => TokView::RPar,
            Tok::And => TokView::And,
            Tok::Or => TokView::Or,
            Tok::Not => TokView::Not,
            Tok::Is => TokView::Is,
            Tok::Null => TokView::Null,
            Tok::True => TokView::True,
            Tok::False => TokView::False,
            Tok::Eq => TokView::Eq,
            Tok::Ne => TokView::Ne,
            Tok::Lt => TokView::Lt,
            Tok::Le => TokView::Le,
            Tok::Gt => TokView::Gt,
            Tok::Ge => TokView::Ge,
            Tok::Ident(w) => TokView::Ident(w@),
            Tok::StrLit(w) => TokView::StrLit(w@),
            Tok::NumLit(w) => TokView::NumLit(w@),
            Tok::Comma => TokView::Comma,
        }
    }
}

/// The views of a lexed token vector.
pub open spec fn views_of(v: Seq<Tok>) -> Seq<TokView> {
    v.map_values(|t: Tok| t@)
}

// ---------------------------------------------------------------------
// Lexing the text form
// ---------------------------------------------------------------------

/// The first index at or after `i` holding a non-whitespace character.
pub open spec fn skip_ws(s: Seq<char>, i: int) -> int
    decreases s.len() - i,
{
    if 0 <= i < s.len() && is_ws(s[i]) {
        skip_ws(s, i + 1)
    } else {
        i
    }
}

/// The index right after the identifier run starting at `i`.
pub open spec fn ident_end(s: Seq<char>, i: int) -> int
    decreases s.len() - i,
{
    if 0 <= i < s.len() && is_ident_char(s[i]) {
        ident_end(s, i + 1)
    } else {
        i
    }
}

/// The index right after the numeric-character run starting at `i`.
pub open spec fn num_end(s: Seq<char>, i: int) -> int
    decreases s.len() - i,
{
    if 0 <= i < s.len() && is_num_char(s[i]) {
        num_end(s, i + 1)
    } else {
        i
    }
}

/// The index of the closing quote at or after `i`, or a negative value if
/// the literal never closes.
pub open spec fn quote_end(s: Seq<char>, i: int) -> int
    decreases s.len() - i,
{
    if 0 <= i < s.len() {
        if s[i] == '\'' {
            i
        } else {
            quote_end(s, i + 1)
        }
    } else {
        -1
    }
}

/// What an identifier-shaped word lexes to.
pub open spec fn classify_word(w: Seq<char>) -> TokView {
    if kw_and(w) {
        TokView::And
    } else if kw_or(w) {
        TokView::Or
    } else if kw_not(w) {
        TokView::Not
    } else if kw_is(w) {
        TokView::Is
    } else if kw_null(w) {
        TokView::Null
    } else if kw_true(w) {
        TokView::True
    } else if kw_false(w) {
        TokView::False
    } else {
        TokView::Ident(w)
    }
}

/// One token starting exactly at `i`, which must not hold whitespace.
pub open spec fn lex_one(s: Seq<char>, i: int) -> Option<(TokView, int)> {
    if !(0 <= i < s.len()) {
        None
    } else {
        let c = s[i];
        if c == '(' {
            Some((TokView::LPar, i + 1))
        } else if c == ')' {
            Some((TokView::RPar, i + 1))
        } else if c == ',' {
            Some((TokView::Comma, i + 1))
        } else if c == '=' {
            Some((TokView::Eq, i + 1))
        } else if c == '<' {
            if i + 1 < s.len() && s[i + 1] == '=' {
                Some((TokView::Le, i + 2))
            } else if i + 1 < s.len() && s[i + 1] == '>' {
                Some((TokView::Ne, i + 2))
            } else {
                Some((TokView::Lt, i + 1))
            }
        } else if c == '>' {
            if i + 1 < s.len() && s[i + 1] == '=' {
                Some((TokView::Ge, i + 2))
            } else {
                Some((TokView::Gt, i + 1))
            }
        } else if c == '\'' {
            let e = quote_end(s, i + 1);
            if e >= 0 {
                Some((TokView::StrLit(s.subrange(i + 1, e)), e + 1))
            } else {
                None
            }
        } else if is_ident_start(c) {
            let j = ident_end(s, i);
            Some((classify_word(s.subrange(i, j)), j))
        } else if is_digit(c) || c == '-' {
            let j = num_end(s, i);
            if num_wf(s.subrange(i, j)) {
                Some((TokView::NumLit(s.subrange(i, j)), j))
            } else {
                None
            }
        } else {
            None
        }
    }
}

/// The whole input lexed from `i` on, or nothing if any part of it fails
/// to lex.
pub open spec fn lex_from(s: Seq<char>, i: int) -> Option<Seq<TokView>>
    decreases s.len() - i,
{
    let j = skip_ws(s, i);
    if j >= s.len() {
        Some(Seq::empty())
    } else {
        match lex_one(s, j) {
            None => None,
            Some((t, k)) => if i <= j && j < k && k <= s.len() {
                match lex_from(s, k) {
                    None => None,
                    Some(ts) => Some(seq![t] + ts),
                }
            } else {
                None
            },
        }
    }
}

/// Exec mirror of [`skip_ws`].
fn skip_ws_exec(s: &str, len: usize, i: usize) -> (r: usize)
    requires
        len == s@.len(),
        i <= len,
    ensures
        r as int == skip_ws(s@, i as int),
        i <= r <= len,
    decreases len - i,
{
    if i < len {
        let c = s.get_char(i);
        if c == ' ' || c == '\t' || c == '\n' || c == '\r' {
            skip_ws_exec(s, len, i + 1)
        } else {
            i
        }
    } else {
        i
    }
}

/// Exec mirror of [`ident_end`].
fn ident_end_exec(s: &str, len: usize, i: usize) -> (r: usize)
    requires
        len == s@.len(),
        i <= len,
    ensures
        r as int == ident_end(s@, i as int),
        i <= r <= len,
        (i < len && is_ident_char(s@[i as int])) ==> r > i,
    decreases len - i,
{
    if i < len {
        let c = s.get_char(i);
        let code = c as u32;
        if (65 <= code && code <= 90) || (97 <= code && code <= 122) || c == '_' || (48 <= code
            && code <= 57) || c == '.' || c == ':' {
            ident_end_exec(s, len, i + 1)
        } else {
            i
        }
    } else {
        i
    }
}

/// Exec mirror of [`num_end`].
fn num_end_exec(s: &str, len: usize, i: usize) -> (r: usize)
    requires
        len == s@.len(),
        i <= len,
    ensures
        r as int == num_end(s@, i as int),
        i <= r <= len,
        (i < len && is_num_char(s@[i as int])) ==> r > i,
    decreases len - i,
{
    if i < len {
        let c = s.get_char(i);
        let code = c as u32;
        if (48 <= code && code <= 57) || c == '-' || c == '+' || c == '.' || c == 'e' || c == 'E' {
            num_end_exec(s, len, i + 1)
        } else {
            i
        }
    } else {
        i
    }
}

/// Exec mirror of [`digits_end`].
fn digits_end_exec(s: &str, len: usize, i: usize) -> (r: usize)
    requires
        len == s@.len(),
        i <= len,
    ensures
        r as int == digits_end(s@, i as int),
        i <= r <= len,
    decreases len - i,
{
    if i < len {
        let c = s.get_char(i);
        let code = c as u32;
        if 48 <= code && code <= 57 {
            digits_end_exec(s, len, i + 1)
        } else {
            i
        }
    } else {
        i
    }
}

/// Exec mirror of [`quote_end`].
fn quote_end_exec(s: &str, len: usize, i: usize) -> (r: Option<usize>)
    requires
        len == s@.len(),
        i <= len,
    ensures
        (r matches Some(j) ==> j as int == quote_end(s@, i as int) && i <= j < len),
        (r is None ==> quote_end(s@, i as int) < 0),
    decreases len - i,
{
    if i < len {
        let c = s.get_char(i);
        if c == '\'' {
            Some(i)
        } else {
            quote_end_exec(s, len, i + 1)
        }
    } else {
        None
    }
}

/// Exec mirror of [`num_wf`].
fn num_wf_exec(w: &str) -> (r: bool)
    ensures
        r == num_wf(w@),
{
    let len = w.unicode_len();
    let a: usize = if len > 0 && w.get_char(0) == '-' {
        1
    } else {
        0
    };
    let b = digits_end_exec(w, len, a);
    if b <= a {
        return false;
    }
    let c: usize = if b < len && w.get_char(b) == '.' {
        let d = digits_end_exec(w, len, b + 1);
        if d > b + 1 {
            d
        } else {
            return false;
        }
    } else {
        b
    };
    if c < len {
        let cc = w.get_char(c);
        if cc == 'e' || cc == 'E' {
            let f: usize = if c + 1 < len {
                let cs = w.get_char(c + 1);
                if cs == '+' || cs == '-' {
                    c + 2
                } else {
                    c + 1
                }
            } else {
                c + 1
            };
            let g = digits_end_exec(w, len, f);
            g > f && g == len
        } else {
            c == len
        }
    } else {
        c == len
    }
}

/// Exec mirror of [`classify_word`].
fn classify_word_exec(w: String) -> (r: Tok)
    ensures
        r@ == classify_word(w@),
{
    let len = w.as_str().unicode_len();
    if len == 2 {
        let c0 = w.as_str().get_char(0);
        let c1 = w.as_str().get_char(1);
        if (c0 == 'O' || c0 == 'o') && (c1 == 'R' || c1 == 'r') {
            return Tok::Or;
        }
        if (c0 == 'I' || c0 == 'i') && (c1 == 'S' || c1 == 's') {
            return Tok::Is;
        }
    } else if len == 3 {
        let c0 = w.as_str().get_char(0);
        let c1 = w.as_str().get_char(1);
        let c2 = w.as_str().get_char(2);
        if (c0 == 'A' || c0 == 'a') && (c1 == 'N' || c1 == 'n') && (c2 == 'D' || c2 == 'd') {
            return Tok::And;
        }
        if (c0 == 'N' || c0 == 'n') && (c1 == 'O' || c1 == 'o') && (c2 == 'T' || c2 == 't') {
            return Tok::Not;
        }
    } else if len == 4 {
        let c0 = w.as_str().get_char(0);
        let c1 = w.as_str().get_char(1);
        let c2 = w.as_str().get_char(2);
        let c3 = w.as_str().get_char(3);
        if (c0 == 'N' || c0 == 'n') && (c1 == 'U' || c1 == 'u') && (c2 == 'L' || c2 == 'l') && (c3
            == 'L' || c3 == 'l') {
            return Tok::Null;
        }
        if (c0 == 'T' || c0 == 't') && (c1 == 'R' || c1 == 'r') && (c2 == 'U' || c2 == 'u') && (c3
            == 'E' || c3 == 'e') {
            return Tok::True;
        }
    } else if len == 5 {
        let c0 = w.as_str().get_char(0);
        let c1 = w.as_str().get_char(1);
        let c2 = w.as_str().get_char(2);
        let c3 = w.as_str().get_char(3);
        let c4 = w.as_str().get_char(4);
        if (c0 == 'F' || c0 == 'f') && (c1 == 'A' || c1 == 'a') && (c2 == 'L' || c2 == 'l') && (c3
            == 'S' || c3 == 's') && (c4 == 'E' || c4 == 'e') {
            return Tok::False;
        }
    }
    Tok::Ident(w)
}

/// Exec mirror of [`lex_one`]; `i` must sit on a non-whitespace character.
fn lex_one_exec(s: &str, len: usize, i: usize) -> (r: Option<(Tok, usize)>)
    requires
        len == s@.len(),
        i < len,
    ensures
        (match lex_one(s@, i as int) {
            Option::None => r is None,
            Option::Some(p) => r matches Some(q) && q.0@ == p.0 && q.1 as int == p.1,
        }),
        (r matches Some(q) ==> i < q.1 <= len),
{
    let c = s.get_char(i);
    let code = c as u32;
    if c == '(' {
        Some((Tok::LPar, i + 1))
    } else if c == ')' {
        Some((Tok::RPar, i + 1))
    } else if c == ',' {
        Some((Tok::Comma, i + 1))
    } else if c == '=' {
        Some((Tok::Eq, i + 1))
    } else if c == '<' {
        if i + 1 < len && s.get_char(i + 1) == '=' {
            Some((Tok::Le, i + 2))
        } else if i + 1 < len && s.get_char(i + 1) == '>' {
            Some((Tok::Ne, i + 2))
        } else {
            Some((Tok::Lt, i + 1))
        }
    } else if c == '>' {
        if i + 1 < len && s.get_char(i + 1) == '=' {
            Some((Tok::Ge, i + 2))
        } else {
            Some((Tok::Gt, i + 1))
        }
    } else if c == '\'' {
        match quote_end_exec(s, len, i + 1) {
            Option::Some(e) => {
                let body = s.substring_char(i + 1, e).to_owned();
                Some((Tok::StrLit(body), e + 1))
            },
            Option::None => None,
        }
    } else if (65 <= code && code <= 90) || (97 <= code && code <= 122) || c == '_' {
        let j = ident_end_exec(s, len, i);
        let w = s.substring_char(i, j).to_owned();
        Some((classify_word_exec(w), j))
    } else if (48 <= code && code <= 57) || c == '-' {
        let j = num_end_exec(s, len, i);
        let w = s.substring_char(i, j).to_owned();
        if num_wf_exec(w.as_str()) {
            Some((Tok::NumLit(w), j))
        } else {
            None
        }
    } else {
        None
    }
}

/// Exec mirror of [`lex_from`].
pub(crate) fn lex_from_exec(s: &str, len: usize, i: usize) -> (r: Option<Vec<Tok>>)
    requires
        len == s@.len(),
        i <= len,
    ensures
        (match lex_from(s@, i as int) {
            Option::None => r is None,
            Option::Some(ts) => r matches Some(v) && views_of(v@) == ts,
        }),
    decreases len - i,
{
    let j = skip_ws_exec(s, len, i);
    if j >= len {
        let out: Vec<Tok> = Vec::new();
        proof {
            assert(views_of(out@) =~= Seq::<TokView>::empty());
        }
        Some(out)
    } else {
        match lex_one_exec(s, len, j) {
            Option::None => None,
            Option::Some((t, k)) => {
                match lex_from_exec(s, len, k) {
                    Option::None => None,
                    Option::Some(rest) => {
                        let mut out: Vec<Tok> = Vec::new();
                        let mut rest = rest;
                        out.push(t);
                        out.append(&mut rest);
                        proof {
                            let ghost tail = lex_from(s@, k as int).unwrap();
                            assert(views_of(out@) =~= seq![out@[0]@] + tail);
                        }
                        Some(out)
                    },
                }
            },
        }
    }
}

// ---------------------------------------------------------------------
// Parsing the token stream
// ---------------------------------------------------------------------

/// The comparison operator a token stands for, if any.
pub open spec fn cmp_of_tok(t: TokView) -> Option<CmpOp> {
    match t {
        TokView::Eq => Some(CmpOp::Eq),
        TokView::Ne => Some(CmpOp::Ne),
        TokView::Lt => Some(CmpOp::Lt),
        TokView::Le => Some(CmpOp::Le),
        TokView::Gt => Some(CmpOp::Gt),
        TokView::Ge => Some(CmpOp::Ge),
        _ => None,
    }
}

/// One operand token.
pub open spec fn p_operand(ts: Seq<TokView>, i: int) -> Option<(OperandView, int)> {
    if 0 <= i < ts.len() {
        match ts[i] {
            TokView::Ident(w) => Some((OperandView::Property(w), i + 1)),
            TokView::StrLit(w) => Some((OperandView::Str(w), i + 1)),
            TokView::NumLit(w) => Some((OperandView::Num(w), i + 1)),
            TokView::True => Some((OperandView::Bool(true), i + 1)),
            TokView::False => Some((OperandView::Bool(false), i + 1)),
            TokView::Null => Some((OperandView::Null, i + 1)),
            _ => None,
        }
    } else {
        None
    }
}

/// A parenthesized expression, a comparison, or a null test.
pub open spec fn p_primary(ts: Seq<TokView>, i: int) -> Option<(ExprView, int)>
    decreases ts.len() - i, 0nat,
{
    if !(0 <= i < ts.len()) {
        None
    } else if ts[i] is LPar {
        match p_expr(ts, i + 1) {
            None => None,
            Some((e, j)) => if 0 <= j < ts.len() && ts[j] is RPar {
                Some((e, j + 1))
            } else {
                None
            },
        }
    } else {
        match p_operand(ts, i) {
            None => None,
            Some((x, i1)) => if i1 < ts.len() {
                match cmp_of_tok(ts[i1]) {
                    Some(op) => match p_operand(ts, i1 + 1) {
                        None => None,
                        Some((y, i2)) => Some((ExprView::Cmp(op, x, y), i2)),
                    },
                    None => if ts[i1] is Is && i1 + 1 < ts.len() && ts[i1 + 1] is Null {
                        Some((ExprView::IsNull(x), i1 + 2))
                    } else {
                        None
                    },
                }
            } else {
                None
            },
        }
    }
}

/// A primary, under any number of negations.
pub open spec fn p_unary(ts: Seq<TokView>, i: int) -> Option<(ExprView, int)>
    decreases ts.len() - i, 1nat,
{
    if 0 <= i < ts.len() && ts[i] is Not {
        match p_unary(ts, i + 1) {
            None => None,
            Some((e, j)) => Some((ExprView::Not(Box::new(e)), j)),
        }
    } else {
        p_primary(ts, i)
    }
}

/// A left-folded conjunction chain.
pub open spec fn p_and(ts: Seq<TokView>, i: int) -> Option<(ExprView, int)>
    decreases ts.len() - i, 2nat,
{
    match p_unary(ts, i) {
        None => None,
        Some((a, j)) => if i < j <= ts.len() {
            p_and_rest(a, ts, j)
        } else {
            None
        },
    }
}

/// The `AND unary` continuations of a conjunction chain.
pub open spec fn p_and_rest(acc: ExprView, ts: Seq<TokView>, j: int) -> Option<(ExprView, int)>
    decreases ts.len() - j, 3nat,
{
    if 0 <= j < ts.len() && ts[j] is And {
        match p_unary(ts, j + 1) {
            None => None,
            Some((b, k)) => if j < k <= ts.len() {
                p_and_rest(ExprView::And(Box::new(acc), Box::new(b)), ts, k)
            } else {
                None
            },
        }
    } else {
        Some((acc, j))
    }
}

/// A left-folded disjunction chain; this is the whole expression grammar.
pub open spec fn p_expr(ts: Seq<TokView>, i: int) -> Option<(ExprView, int)>
    decreases ts.len() - i, 4nat,
{
    match p_and(ts, i) {
        None => None,
        Some((a, j)) => if i < j <= ts.len() {
            p_or_rest(a, ts, j)
        } else {
            None
        },
    }
}

/// The `OR and_chain` continuations of a disjunction chain.
pub open spec fn p_or_rest(acc: ExprView, ts: Seq<TokView>, j: int) -> Option<(ExprView, int)>
    decreases ts.len() - j, 5nat,
{
    if 0 <= j < ts.len() && ts[j] is Or {
        match p_and(ts, j + 1) {
            None => None,
            Some((b, k)) => if j < k <= ts.len() {
                p_or_rest(ExprView::Or(Box::new(acc), Box::new(b)), ts, k)
            } else {
                None
            },
        }
    } else {
        Some((acc, j))
    }
}

/// A whole token stream parsed as one expression, nothing left over.
pub open spec fn parse_toks_spec(ts: Seq<TokView>) -> Option<ExprView> {
    match p_expr(ts, 0) {
        None => None,
        Some((e, j)) => if j == ts.len() {
            Some(e)
        } else {
            None
        },
    }
}

/// The text surface form, canonicalized: lexed, then parsed completely.
pub open spec fn parse_filter_text_spec(s: Seq<char>) -> Option<ExprView> {
    match lex_from(s, 0) {
        None => None,
        Some(ts) => parse_toks_spec(ts),
    }
}

/// Exec mirror of [`cmp_of_tok`].
fn cmp_of_tok_exec(t: &Tok) -> (r: Option<CmpOp>)
    ensures
        r == cmp_of_tok(t@),
{
    match t {
        Tok::Eq => Some(CmpOp::Eq),
        Tok::Ne => Some(CmpOp::Ne),
        Tok::Lt => Some(CmpOp::Lt),
        Tok::Le => Some(CmpOp::Le),
        Tok::Gt => Some(CmpOp::Gt),
        Tok::Ge => Some(CmpOp::Ge),
        _ => None,
    }
}

/// Exec mirror of [`p_operand`].
fn p_operand_exec(ts: &Vec<Tok>, i: usize) -> (r: Option<(Operand, usize)>)
    requires
        i <= ts@.len(),
    ensures
        (match p_operand(views_of(ts@), i as int) {
            Option::None => r is None,
            Option::Some(p) => r matches Some(q) && q.0@ == p.0 && q.1 as int == p.1 && i < q.1
                <= ts@.len(),
        }),
{
    if i < ts.len() {
        match &ts[i] {
            Tok::Ident(w) => Some((Operand::Property(w.clone()), i + 1)),
            Tok::StrLit(w) => Some((Operand::Str(w.clone()), i + 1)),
            Tok::NumLit(w) => Some((Operand::Num(w.clone()), i + 1)),
            Tok::True => Some((Operand::Bool(true), i + 1)),
            Tok::False => Some((Operand::Bool(false), i + 1)),
            Tok::Null => Some((Operand::Null, i + 1)),
            _ => None,
        }
    } else {
        None
    }
}

/// Exec mirror of [`p_primary`].
fn p_primary_exec(ts: &Vec<Tok>, i: usize) -> (r: Option<(Expr, usize)>)
    requires
        i <= ts@.len(),
    ensures
        (match p_primary(views_of(ts@), i as int) {
            Option::None => r is None,
            Option::Some(p) => r matches Some(q) && q.0@ == p.0 && q.1 as int == p.1 && i < q.1
                <= ts@.len(),
        }),
    decreases ts@.len() - i, 0nat,
{
    if i >= ts.len() {
        return None;
    }
    if matches!(&ts[i], Tok::LPar) {
        match p_expr_exec(ts, i + 1) {
            Option::None => None,
            Option::Some((e, j)) => {
                if j < ts.len() && matches!(&ts[j], Tok::RPar) {
                    Some((e, j + 1))
                } else {
                    None
                }
            },
        }
    } else {
        match p_operand_exec(ts, i) {
            Option::None => None,
            Option::Some((x, i1)) => {
                if i1 < ts.len() {
                    match cmp_of_tok_exec(&ts[i1]) {
                        Option::Some(op) => match p_operand_exec(ts, i1 + 1) {
                            Option::None => None,
                            Option::Some((y, i2)) => Some((Expr::Cmp(op, x, y), i2)),
                        },
                        Option::None => {
                            if matches!(&ts[i1], Tok::Is) && i1 + 1 < ts.len() && matches!(
                                &ts[i1 + 1],
                                Tok::Null,
                            ) {
                                Some((Expr::IsNull(x), i1 + 2))
                            } else {
                                None
                            }
                        },
                    }
                } else {
                    None
                }
            },
        }
    }
}

/// Exec mirror of [`p_unary`].
fn p_unary_exec(ts: &Vec<Tok>, i: usize) -> (r: Option<(Expr, usize)>)
    requires
        i <= ts@.len(),
    ensures
        (match p_unary(views_of(ts@), i as int) {
            Option::None => r is None,
            Option::Some(p) => r matches Some(q) && q.0@ == p.0 && q.1 as int == p.1 && i < q.1
                <= ts@.len(),
        }),
    decreases ts@.len() - i, 1nat,
{
    if i < ts.len() && matches!(&ts[i], Tok::Not) {
        match p_unary_exec(ts, i + 1) {
            Option::None => None,
            Option::Some((e, j)) => Some((Expr::Not(Box::new(e)), j)),
        }
    } else {
        p_primary_exec(ts, i)
    }
}

/// Exec mirror of [`p_and`].
fn p_and_exec(ts: &Vec<Tok>, i: usize) -> (r: Option<(Expr, usize)>)
    requires
        i <= ts@.len(),
    ensures
        (match p_and(views_of(ts@), i as int) {
            Option::None => r is None,
            Option::Some(p) => r matches Some(q) && q.0@ == p.0 && q.1 as int == p.1 && i < q.1
                <= ts@.len(),
        }),
    decreases ts@.len() - i, 2nat,
{
    match p_unary_exec(ts, i) {
        Option::None => None,
        Option::Some((a, j)) => p_and_rest_exec(a, ts, j),
    }
}

/// Exec mirror of [`p_and_rest`].
fn p_and_rest_exec(acc: Expr, ts: &Vec<Tok>, j: usize) -> (r: Option<(Expr, usize)>)
    requires
        j <= ts@.len(),
    ensures
        (match p_and_rest(acc@, views_of(ts@), j as int) {
            Option::None => r is None,
            Option::Some(p) => r matches Some(q) && q.0@ == p.0 && q.1 as int == p.1 && j <= q.1
                <= ts@.len(),
        }),
    decreases ts@.len() - j, 3nat,
{
    if j < ts.len() && matches!(&ts[j], Tok::And) {
        match p_unary_exec(ts, j + 1) {
            Option::None => None,
            Option::Some((b, k)) => p_and_rest_exec(Expr::And(Box::new(acc), Box::new(b)), ts, k),
        }
    } else {
        Some((acc, j))
    }
}

/// Exec mirror of [`p_expr`].
fn p_expr_exec(ts: &Vec<Tok>, i: usize) -> (r: Option<(Expr, usize)>)
    requires
        i <= ts@.len(),
    ensures
        (match p_expr(views_of(ts@), i as int) {
            Option::None => r is None,
            Option::Some(p) => r matches Some(q) && q.0@ == p.0 && q.1 as int == p.1 && i < q.1
                <= ts@.len(),
        }),
    decreases ts@.len() - i, 4nat,
{
    match p_and_exec(ts, i) {
        Option::None => None,
        Option::Some((a, j)) => p_or_rest_exec(a, ts, j),
    }
}

/// Exec mirror of [`p_or_rest`].
fn p_or_rest_exec(acc: Expr, ts: &Vec<Tok>, j: usize) -> (r: Option<(Expr, usize)>)
    requires
        j <= ts@.len(),
    ensures
        (match p_or_rest(acc@, views_of(ts@), j as int) {
            Option::None => r is None,
            Option::Some(p) => r matches Some(q) && q.0@ == p.0 && q.1 as int == p.1 && j <= q.1
                <= ts@.len(),
        }),
    decreases ts@.len() - j, 5nat,
{
    if j < ts.len() && matches!(&ts[j], Tok::Or) {
        match p_and_exec(ts, j + 1) {
            Option::None => None,
            Option::Some((b, k)) => p_or_rest_exec(Expr::Or(Box::new(acc), Box::new(b)), ts, k),
        }
    } else {
        Some((acc, j))
    }
}

/// Parses the text surface form into the canonical expression, or reports
/// precisely that the text is not in the grammar.  What comes out is
/// always well-formed, so the round-trip laws apply to it.
pub fn parse_filter_text(s: &str) -> (r: Result<Expr, Error>)
    ensures
        (match parse_filter_text_spec(s@) {
            Option::None => r matches Err(e) && e is Validation,
            Option::Some(ev) => r matches Ok(e) && e@ == ev,
        }),
        (r matches Ok(e) ==> expr_view_wf(e@)),
{
    proof {
        lemma_parsed_text_filter_wf(s@);
    }
    let len = s.unicode_len();
    match lex_from_exec(s, len, 0) {
        Option::None => Err(Error::Validation("filter text could not be read".to_owned())),
        Option::Some(toks) => {
            match p_expr_exec(&toks, 0) {
                Option::None => Err(
                    Error::Validation("filter text is not a filter expression".to_owned()),
                ),
                Option::Some((e, j)) => {
                    if j == toks.len() {
                        Ok(e)
                    } else {
                        Err(
                            Error::Validation(
                                "filter text has trailing content after the expression".to_owned(),
                            ),
                        )
                    }
                },
            }
        },
    }
}

// ---------------------------------------------------------------------
// Rendering the canonical text form
// ---------------------------------------------------------------------

/// The token an operand renders to.
pub open spec fn opnd_tok(x: OperandView) -> TokView {
    match x {
        OperandView::Property(w) => TokView::Ident(w),
        OperandView::Str(w) => TokView::StrLit(w),
        OperandView::Num(w) => TokView::NumLit(w),
        OperandView::Bool(b) => if b {
            TokView::True
        } else {
            TokView::False
        },
        OperandView::Null => TokView::Null,
    }
}

/// The token a comparison operator renders to.
pub open spec fn cmp_tok(op: CmpOp) -> TokView {
    match op {
        CmpOp::Eq => TokView::Eq,
        CmpOp::Ne => TokView::Ne,
        CmpOp::Lt => TokView::Lt,
        CmpOp::Le => TokView::Le,
        CmpOp::Gt => TokView::Gt,
        CmpOp::Ge => TokView::Ge,
    }
}

/// The canonical token sequence of an expression: conjunctions and
/// disjunctions always parenthesized, so the rendering is unambiguous at
/// every nesting depth.
pub open spec fn toks_of(e: ExprView) -> Seq<TokView>
    decreases e,
{
    match e {
        ExprView::Cmp(op, l, r) => seq![opnd_tok(l), cmp_tok(op), opnd_tok(r)],
        ExprView::IsNull(x) => seq![opnd_tok(x), TokView::Is, TokView::Null],
        ExprView::And(a, b) => seq![TokView::LPar] + toks_of(*a) + seq![TokView::And] + toks_of(*b)
            + seq![TokView::RPar],
        ExprView::Or(a, b) => seq![TokView::LPar] + toks_of(*a) + seq![TokView::Or] + toks_of(*b)
            + seq![TokView::RPar],
        ExprView::Not(a) => seq![TokView::Not] + toks_of(*a),
    }
}

/// The text of one token.
pub open spec fn tok_text(t: TokView) -> Seq<char> {
    match t {
        TokView::LPar => seq!['('],
        TokView::RPar => seq![')'],
        TokView::Comma => seq![','],
        TokView::And => seq!['A', 'N', 'D'],
        TokView::Or => seq!['O', 'R'],
        TokView::Not => seq!['N', 'O', 'T'],
        TokView::Is => seq!['I', 'S'],
        TokView::Null => seq!['N', 'U', 'L', 'L'],
        TokView::True => seq!['T', 'R', 'U', 'E'],
        TokView::False => seq!['F', 'A', 'L', 'S', 'E'],
        TokView::Eq => seq!['='],
        TokView::Ne => seq!['<', '>'],
        TokView::Lt => seq!['<'],
        TokView::Le => seq!['<', '='],
        TokView::Gt => seq!['>'],
        TokView::Ge => seq!['>', '='],
        TokView::Ident(w) => w,
        TokView::StrLit(w) => seq!['\''] + w + seq!['\''],
        TokView::NumLit(w) => w,
    }
}

/// The texts of the tokens after the first, each preceded by one space.
pub open spec fn tail_text(ts: Seq<TokView>) -> Seq<char>
    decreases ts.len(),
{
    if ts.len() == 0 {
        Seq::empty()
    } else {
        seq![' '] + tok_text(ts[0]) + tail_text(ts.drop_first())
    }
}

/// The canonical text of a token sequence: token texts joined by single
/// spaces.
pub open spec fn tokens_text(ts: Seq<TokView>) -> Seq<char> {
    if ts.len() == 0 {
        Seq::empty()
    } else {
        tok_text(ts[0]) + tail_text(ts.drop_first())
    }
}

/// The canonical text form of an expression.
pub open spec fn filter_text_of(e: ExprView) -> Seq<char> {
    tokens_text(toks_of(e))
}

/// Appending one token appends one space and its text.
pub proof fn lemma_tail_text_push(ts: Seq<TokView>, t: TokView)
    ensures
        tail_text(ts.push(t)) == tail_text(ts) + seq![' '] + tok_text(t),
    decreases ts.len(),
{
    if ts.len() == 0 {
        assert(ts.push(t)[0] == t);
        assert(ts.push(t).drop_first() =~= Seq::<TokView>::empty());
        assert(tail_text(Seq::<TokView>::empty()) == Seq::<char>::empty());
        assert(tail_text(ts.push(t)) =~= tail_text(ts) + seq![' '] + tok_text(t));
    } else {
        assert(ts.push(t)[0] == ts[0]);
        assert(ts.push(t).drop_first() =~= ts.drop_first().push(t));
        lemma_tail_text_push(ts.drop_first(), t);
        assert(tail_text(ts.push(t)) =~= tail_text(ts) + seq![' '] + tok_text(t));
    }
}

/// The same, for a whole token sequence's text.
pub proof fn lemma_tokens_text_push(ts: Seq<TokView>, t: TokView)
    ensures
        tokens_text(ts.push(t)) == if ts.len() == 0 {
            tok_text(t)
        } else {
            tokens_text(ts) + seq![' '] + tok_text(t)
        },
{
    if ts.len() == 0 {
        assert(ts.push(t).drop_first() =~= Seq::<TokView>::empty());
        assert(tokens_text(ts.push(t)) =~= tok_text(t));
    } else {
        assert(ts.push(t).drop_first() =~= ts.drop_first().push(t));
        lemma_tail_text_push(ts.drop_first(), t);
        assert(tokens_text(ts.push(t)) =~= tokens_text(ts) + seq![' '] + tok_text(t));
    }
}

/// Exec mirror of [`opnd_tok`].
fn opnd_tok_exec(x: &Operand) -> (r: Tok)
    ensures
        r@ == opnd_tok(x@),
{
    match x {
        Operand::Property(w) => Tok::Ident(w.clone()),
        Operand::Str(w) => Tok::StrLit(w.clone()),
        Operand::Num(w) => Tok::NumLit(w.clone()),
        Operand::Bool(b) => if *b {
            Tok::True
        } else {
            Tok::False
        },
        Operand::Null => Tok::Null,
    }
}

/// Appends one token, tracked at the view level.
fn push_tok(out: &mut Vec<Tok>, t: Tok)
    ensures
        views_of(final(out)@) == views_of(old(out)@).push(t@),
{
    let ghost g = out@;
    let ghost tv = t@;
    out.push(t);
    proof {
        assert(views_of(out@) =~= views_of(g).push(tv));
    }
}

/// Appends the canonical token sequence of `e` to `out`.
fn push_tokens(out: &mut Vec<Tok>, e: &Expr)
    ensures
        views_of(final(out)@) == views_of(old(out)@) + toks_of(e@),
    decreases *e,
{
    match e {
        Expr::Cmp(op, l, r) => {
            push_tok(out, opnd_tok_exec(l));
            match op {
                CmpOp::Eq => push_tok(out, Tok::Eq),
                CmpOp::Ne => push_tok(out, Tok::Ne),
                CmpOp::Lt => push_tok(out, Tok::Lt),
                CmpOp::Le => push_tok(out, Tok::Le),
                CmpOp::Gt => push_tok(out, Tok::Gt),
                CmpOp::Ge => push_tok(out, Tok::Ge),
            }
            push_tok(out, opnd_tok_exec(r));
            proof {
                assert(views_of(out@) =~= views_of(old(out)@) + toks_of(e@));
            }
        },
        Expr::IsNull(x) => {
            push_tok(out, opnd_tok_exec(x));
            push_tok(out, Tok::Is);
            push_tok(out, Tok::Null);
            proof {
                assert(views_of(out@) =~= views_of(old(out)@) + toks_of(e@));
            }
        },
        Expr::And(a, b) => {
            push_tok(out, Tok::LPar);
            push_tokens(out, a);
            push_tok(out, Tok::And);
            push_tokens(out, b);
            push_tok(out, Tok::RPar);
            proof {
                assert(views_of(out@) =~= views_of(old(out)@) + toks_of(e@));
            }
        },
        Expr::Or(a, b) => {
            push_tok(out, Tok::LPar);
            push_tokens(out, a);
            push_tok(out, Tok::Or);
            push_tokens(out, b);
            push_tok(out, Tok::RPar);
            proof {
                assert(views_of(out@) =~= views_of(old(out)@) + toks_of(e@));
            }
        },
        Expr::Not(a) => {
            push_tok(out, Tok::Not);
            push_tokens(out, a);
            proof {
                assert(views_of(out@) =~= views_of(old(out)@) + toks_of(e@));
            }
        },
    }
}

/// Appends the text of one token to `out`.
fn append_tok(out: &mut String, t: &Tok)
    ensures
        final(out)@ == old(out)@ + tok_text(t@),
{
    match t {
        Tok::LPar => {
            out.append("(");
            proof {
                reveal_strlit("(");
                assert(out@ =~= old(out)@ + tok_text(t@));
            }
        },
        Tok::RPar => {
            out.append(")");
            proof {
                reveal_strlit(")");
                assert(out@ =~= old(out)@ + tok_text(t@));
            }
        },
        Tok::Comma => {
            out.append(",");
            proof {
                reveal_strlit(",");
                assert(out@ =~= old(out)@ + tok_text(t@));
            }
        },
        Tok::And => {
            out.append("AND");
            proof {
                reveal_strlit("AND");
                assert(out@ =~= old(out)@ + tok_text(t@));
            }
        },
        Tok::Or => {
            out.append("OR");
            proof {
                reveal_strlit("OR");
                assert(out@ =~= old(out)@ + tok_text(t@));
            }
        },
        Tok::Not => {
            out.append("NOT");
            proof {
                reveal_strlit("NOT");
                assert(out@ =~= old(out)@ + tok_text(t@));
            }
        },
        Tok::Is => {
            out.append("IS");
            proof {
                reveal_strlit("IS");
                assert(out@ =~= old(out)@ + tok_text(t@));
            }
        },
        Tok::Null => {
            out.append("NULL");
            proof {
                reveal_strlit("NULL");
                assert(out@ =~= old(out)@ + tok_text(t@));
            }
        },
        Tok::True => {
            out.append("TRUE");
            proof {
                reveal_strlit("TRUE");
                assert(out@ =~= old(out)@ + tok_text(t@));
            }
        },
        Tok::False => {
            out.append("FALSE");
            proof {
                reveal_strlit("FALSE");
                assert(out@ =~= old(out)@ + tok_text(t@));
            }
        },
        Tok::Eq => {
            out.append("=");
            proof {
                reveal_strlit("=");
                assert(out@ =~= old(out)@ + tok_text(t@));
            }
        },
        Tok::Ne => {
            out.append("<>");
            proof {
                reveal_strlit("<>");
                assert(out@ =~= old(out)@ + tok_text(t@));
            }
        },
        Tok::Lt => {
            out.append("<");
            proof {
                reveal_strlit("<");
                assert(out@ =~= old(out)@ + tok_text(t@));
            }
        },
        Tok::Le => {
            out.append("<=");
            proof {
                reveal_strlit("<=");
                assert(out@ =~= old(out)@ + tok_text(t@));
            }
        },
        Tok::Gt => {
            out.append(">");
            proof {
                reveal_strlit(">");
                assert(out@ =~= old(out)@ + tok_text(t@));
            }
        },
        Tok::Ge => {
            out.append(">=");
            proof {
                reveal_strlit(">=");
                assert(out@ =~= old(out)@ + tok_text(t@));
            }
        },
        Tok::Ident(w) => {
            out.append(w.as_str());
        },
        Tok::NumLit(w) => {
            out.append(w.as_str());
        },
        Tok::StrLit(w) => {
            out.append("'");
            out.append(w.as_str());
            out.append("'");
            proof {
                reveal_strlit("'");
                assert(out@ =~= old(out)@ + tok_text(t@));
            }
        },
    }
}

/// Renders a token sequence as canonical text: single spaces between
/// tokens.
fn render_tokens(ts: &Vec<Tok>) -> (r: String)
    ensures
        r@ == tokens_text(views_of(ts@)),
{
    let mut out = String::new();
    let mut i: usize = 0;
    while i < ts.len()
        invariant
            i <= ts@.len(),
            out@ == tokens_text(views_of(ts@).take(i as int)),
        decreases ts@.len() - i,
    {
        if i > 0 {
            out.append(" ");
        }
        append_tok(&mut out, &ts[i]);
        proof {
            reveal_strlit(" ");
            let ghost vs = views_of(ts@);
            assert(vs.take(i as int).push(vs[i as int]) =~= vs.take(i + 1));
            lemma_tokens_text_push(vs.take(i as int), vs[i as int]);
            assert(out@ =~= tokens_text(vs.take(i + 1)));
        }
        i = i + 1;
    }
    proof {
        assert(views_of(ts@).take(ts@.len() as int) =~= views_of(ts@));
    }
    out
}

/// Renders the canonical text form of `e`: every conjunction and
/// disjunction parenthesized, keywords upper-case, single spaces between
/// tokens.
pub fn filter_to_text(e: &Expr) -> (r: String)
    ensures
        r@ == filter_text_of(e@),
{
    let mut toks: Vec<Tok> = Vec::new();
    push_tokens(&mut toks, e);
    proof {
        assert(views_of(toks@) =~= toks_of(e@));
    }
    render_tokens(&toks)
}

// ---------------------------------------------------------------------
// The text surface form round-trips: lexing
// ---------------------------------------------------------------------

/// A token whose literal content can survive the round trip.
pub open spec fn tok_wf(t: TokView) -> bool {
    match t {
        TokView::Ident(w) => ident_wf(w),
        TokView::StrLit(w) => strlit_wf(w),
        TokView::NumLit(w) => num_wf(w),
        _ => true,
    }
}

/// All tokens well-formed.
pub open spec fn toks_wf(ts: Seq<TokView>) -> bool {
    forall|k: int| 0 <= k < ts.len() ==> tok_wf(#[trigger] ts[k])
}

proof fn lemma_digits_end_props(s: Seq<char>, i: int)
    requires
        0 <= i <= s.len(),
    ensures
        i <= digits_end(s, i) <= s.len(),
        forall|k: int| i <= k < digits_end(s, i) ==> is_digit(#[trigger] s[k]),
    decreases s.len() - i,
{
    if i < s.len() && is_digit(s[i]) {
        lemma_digits_end_props(s, i + 1);
    }
}

proof fn lemma_num_wf_chars(w: Seq<char>)
    requires
        num_wf(w),
    ensures
        forall|k: int| 0 <= k < w.len() ==> is_num_char(#[trigger] w[k]),
        w.len() > 0,
        is_digit(w[0]) || w[0] == '-',
    decreases 0nat,
{
    let a: int = if w.len() > 0 && w[0] == '-' {
        1
    } else {
        0
    };
    let b = digits_end(w, a);
    lemma_digits_end_props(w, a);
    let c: int = if b < w.len() && w[b] == '.' {
        digits_end(w, b + 1)
    } else {
        b
    };
    if b < w.len() && w[b] == '.' {
        lemma_digits_end_props(w, b + 1);
    }
    if c < w.len() && (w[c] == 'e' || w[c] == 'E') {
        let f: int = if c + 1 < w.len() && (w[c + 1] == '+' || w[c + 1] == '-') {
            c + 2
        } else {
            c + 1
        };
        lemma_digits_end_props(w, f);
    }
    assert(b > a);
}

proof fn lemma_ident_end_exact(s: Seq<char>, i: int, end: int)
    requires
        0 <= i <= end <= s.len(),
        forall|k: int| i <= k < end ==> is_ident_char(#[trigger] s[k]),
        end == s.len() || !is_ident_char(s[end]),
    ensures
        ident_end(s, i) == end,
    decreases end - i,
{
    if i < end {
        lemma_ident_end_exact(s, i + 1, end);
    }
}

proof fn lemma_num_end_exact(s: Seq<char>, i: int, end: int)
    requires
        0 <= i <= end <= s.len(),
        forall|k: int| i <= k < end ==> is_num_char(#[trigger] s[k]),
        end == s.len() || !is_num_char(s[end]),
    ensures
        num_end(s, i) == end,
    decreases end - i,
{
    if i < end {
        lemma_num_end_exact(s, i + 1, end);
    }
}

proof fn lemma_quote_end_exact(s: Seq<char>, i: int, end: int)
    requires
        0 <= i <= end < s.len(),
        forall|k: int| i <= k < end ==> #[trigger] s[k] != '\'',
        s[end] == '\'',
    ensures
        quote_end(s, i) == end,
    decreases end - i,
{
    if i < end {
        lemma_quote_end_exact(s, i + 1, end);
    }
}

/// No token's text is empty or opens with whitespace.
proof fn lemma_tok_text_head(t: TokView)
    requires
        tok_wf(t),
    ensures
        tok_text(t).len() > 0,
        !is_ws(tok_text(t)[0]),
{
    match t {
        TokView::Ident(w) => {
        },
        TokView::NumLit(w) => {
            lemma_num_wf_chars(w);
        },
        _ => {
        },
    }
}

/// At the start of an identifier-shaped word, with a space or the end of
/// input right after it, the lexer reads exactly that word's token.
proof fn lemma_lex_word_at(s: Seq<char>, i: int, w: Seq<char>, j: int)
    requires
        0 <= i,
        j == i + w.len(),
        j <= s.len(),
        s.subrange(i, j) == w,
        j == s.len() || s[j] == ' ',
        w.len() > 0,
        is_ident_start(w[0]),
        forall|k: int| 0 <= k < w.len() ==> is_ident_char(#[trigger] w[k]),
    ensures
        lex_one(s, i) == Some((classify_word(w), j)),
{
    assert(s[i] == w[0]) by {
        assert(s.subrange(i, j)[0] == s[i]);
    }
    assert forall|k: int| i <= k < j implies is_ident_char(#[trigger] s[k]) by {
        assert(s.subrange(i, j)[k - i] == s[k]);
        assert(is_ident_char(w[k - i]));
    }
    lemma_ident_end_exact(s, i, j);
    assert(s.subrange(i, ident_end(s, i)) =~= w);
}

/// At the start of a well-formed token's text, with a space or the end of
/// input right after it, the lexer reads exactly that token.
proof fn lemma_lex_one_at(s: Seq<char>, i: int, t: TokView, j: int)
    requires
        tok_wf(t),
        0 <= i,
        j == i + tok_text(t).len(),
        j <= s.len(),
        s.subrange(i, j) == tok_text(t),
        j == s.len() || s[j] == ' ',
    ensures
        lex_one(s, i) == Some((t, j)),
{
    lemma_tok_text_head(t);
    assert(s[i] == tok_text(t)[0]) by {
        assert(s.subrange(i, j)[0] == s[i]);
    }
    match t {
        TokView::LPar => {},
        TokView::RPar => {},
        TokView::Comma => {},
        TokView::Eq => {},
        TokView::And => {
            lemma_lex_word_at(s, i, tok_text(t), j);
        },
        TokView::Or => {
            lemma_lex_word_at(s, i, tok_text(t), j);
        },
        TokView::Not => {
            lemma_lex_word_at(s, i, tok_text(t), j);
        },
        TokView::Is => {
            lemma_lex_word_at(s, i, tok_text(t), j);
        },
        TokView::Null => {
            lemma_lex_word_at(s, i, tok_text(t), j);
        },
        TokView::True => {
            lemma_lex_word_at(s, i, tok_text(t), j);
        },
        TokView::False => {
            lemma_lex_word_at(s, i, tok_text(t), j);
        },
        TokView::Ne => {
            assert(s[i + 1] == '>') by {
                assert(s.subrange(i, j)[1] == s[i + 1]);
            }
        },
        TokView::Le => {
            assert(s[i + 1] == '=') by {
                assert(s.subrange(i, j)[1] == s[i + 1]);
            }
        },
        TokView::Ge => {
            assert(s[i + 1] == '=') by {
                assert(s.subrange(i, j)[1] == s[i + 1]);
            }
        },
        TokView::Lt => {
            if i + 1 < s.len() {
                assert(s[i + 1] == ' ');
            }
        },
        TokView::Gt => {
            if i + 1 < s.len() {
                assert(s[i + 1] == ' ');
            }
        },
        TokView::Ident(w) => {
            lemma_lex_word_at(s, i, w, j);
            assert(classify_word(w) == TokView::Ident(w));
        },
        TokView::NumLit(w) => {
            lemma_num_wf_chars(w);
            assert forall|k: int| i <= k < j implies is_num_char(#[trigger] s[k]) by {
                assert(s.subrange(i, j)[k - i] == s[k]);
                assert(is_num_char(w[k - i]));
            }
            lemma_num_end_exact(s, i, j);
            assert(s.subrange(i, num_end(s, i)) =~= w);
        },
        TokView::StrLit(w) => {
            assert(s[i] == '\'');
            assert(s[j - 1] == '\'') by {
                assert(s.subrange(i, j)[j - 1 - i] == s[j - 1]);
            }
            assert forall|k: int| i + 1 <= k < j - 1 implies #[trigger] s[k] != '\'' by {
                assert(s.subrange(i, j)[k - i] == s[k]);
                assert(tok_text(t)[k - i] == w[k - i - 1]);
            }
            lemma_quote_end_exact(s, i + 1, j - 1);
            assert(s.subrange(i + 1, j - 1) =~= w) by {
                assert forall|k: int| 0 <= k < w.len() implies s.subrange(i + 1, j - 1)[k] == w[k] by {
                    assert(s.subrange(i, j)[k + 1] == s[i + 1 + k]);
                    assert(tok_text(t)[k + 1] == w[k]);
                }
            }
        },
    }
}

/// Lexing is unmoved by one leading space.
proof fn lemma_lex_from_ws(s: Seq<char>, k: int)
    requires
        0 <= k < s.len(),
        is_ws(s[k]),
    ensures
        lex_from(s, k) == lex_from(s, k + 1),
{
    assert(skip_ws(s, k) == skip_ws(s, k + 1));
    let j = skip_ws(s, k + 1);
    assert(k + 1 <= j) by {
        lemma_skip_ws_lb(s, k + 1);
    }
    if j >= s.len() {
    } else {
        match lex_one(s, j) {
            None => {},
            Some((t, kk)) => {},
        }
    }
}

proof fn lemma_skip_ws_lb(s: Seq<char>, i: int)
    ensures
        skip_ws(s, i) >= i,
    decreases s.len() - i,
{
    if 0 <= i < s.len() && is_ws(s[i]) {
        lemma_skip_ws_lb(s, i + 1);
    }
}

/// The canonical text of a well-formed token sequence lexes back to
/// exactly that sequence.
pub(crate) proof fn lemma_lex_text_at(ts: Seq<TokView>, s: Seq<char>, i: int)
    requires
        toks_wf(ts),
        0 <= i <= s.len(),
        s.subrange(i, s.len() as int) == tokens_text(ts),
    ensures
        lex_from(s, i) == Some(ts),
    decreases ts.len(),
{
    if ts.len() == 0 {
        assert(s.subrange(i, s.len() as int).len() == 0);
        assert(i == s.len());
        assert(lex_from(s, i) =~= Some(Seq::<TokView>::empty()));
        assert(ts =~= Seq::<TokView>::empty());
    } else {
        let t = ts[0];
        assert(tok_wf(t));
        let tlen = tok_text(t).len() as int;
        let j = i + tlen;
        lemma_tok_text_head(t);
        assert(s[i] == tok_text(t)[0]) by {
            assert(s.subrange(i, s.len() as int)[0] == s[i]);
        }
        assert(!is_ws(s[i]));
        assert(skip_ws(s, i) == i);
        if ts.len() == 1 {
            assert(tokens_text(ts) == tok_text(t) + tail_text(ts.drop_first()));
            assert(ts.drop_first().len() == 0);
            assert(tail_text(ts.drop_first()) == Seq::<char>::empty());
            assert(s.len() == j);
            assert(s.subrange(i, j) =~= tok_text(t));
            lemma_lex_one_at(s, i, t, j);
            assert(lex_from(s, j) =~= Some(Seq::<TokView>::empty()));
            assert(seq![t] + Seq::<TokView>::empty() =~= ts);
        } else {
            let rest = ts.drop_first();
            assert(rest.len() > 0);
            assert(tokens_text(ts) == tok_text(t) + tail_text(rest));
            assert(tail_text(rest) == seq![' '] + tok_text(rest[0]) + tail_text(rest.drop_first()));
            assert(tokens_text(rest) == tok_text(rest[0]) + tail_text(rest.drop_first()));
            assert(tokens_text(ts) =~= tok_text(t) + seq![' '] + tokens_text(rest));
            assert(j + 1 <= s.len()) by {
                assert(s.subrange(i, s.len() as int).len() == tokens_text(ts).len());
            }
            assert(s.subrange(i, j) =~= tok_text(t)) by {
                assert forall|k: int| 0 <= k < tlen implies s.subrange(i, j)[k] == tok_text(t)[k] by {
                    assert(s.subrange(i, s.len() as int)[k] == s[i + k]);
                    assert(s.subrange(i, j)[k] == s[i + k]);
                }
            }
            assert(s[j] == ' ') by {
                assert(s.subrange(i, s.len() as int)[tlen] == s[j]);
            }
            lemma_lex_one_at(s, i, t, j);
            assert(s.subrange(j + 1, s.len() as int) =~= tokens_text(rest)) by {
                assert forall|k: int| 0 <= k < s.len() - j - 1 implies s.subrange(
                    j + 1,
                    s.len() as int,
                )[k] == tokens_text(rest)[k] by {
                    assert(s.subrange(i, s.len() as int)[tlen + 1 + k] == s[j + 1 + k]);
                    assert(s.subrange(j + 1, s.len() as int)[k] == s[j + 1 + k]);
                }
            }
            assert(toks_wf(rest)) by {
                assert forall|k: int| 0 <= k < rest.len() implies tok_wf(#[trigger] rest[k]) by {
                    assert(rest[k] == ts[k + 1]);
                }
            }
            lemma_lex_text_at(rest, s, j + 1);
            lemma_lex_from_ws(s, j);
            assert(lex_from(s, j) == Some(rest));
            assert(seq![t] + rest =~= ts);
        }
    }
}

// ---------------------------------------------------------------------
// What the lexer and parser return is well-formed
// ---------------------------------------------------------------------

proof fn lemma_ident_end_props(s: Seq<char>, i: int)
    requires
        0 <= i <= s.len(),
    ensures
        i <= ident_end(s, i) <= s.len(),
        forall|k: int| i <= k < ident_end(s, i) ==> is_ident_char(#[trigger] s[k]),
    decreases s.len() - i,
{
    if i < s.len() && is_ident_char(s[i]) {
        lemma_ident_end_props(s, i + 1);
    }
}

proof fn lemma_quote_end_props(s: Seq<char>, i: int)
    requires
        0 <= i <= s.len(),
    ensures
        quote_end(s, i) < 0 || (i <= quote_end(s, i) < s.len() && (forall|k: int|
            i <= k < quote_end(s, i) ==> #[trigger] s[k] != '\'')),
    decreases s.len() - i,
{
    if i < s.len() && s[i] != '\'' {
        lemma_quote_end_props(s, i + 1);
    }
}

/// Whatever the lexer returns is a well-formed token: identifier runs
/// are identifiers and not keywords, string bodies hold no quote, and
/// numeric literals passed the numeric grammar.
proof fn lemma_lex_one_wf(s: Seq<char>, i: int)
    requires
        0 <= i,
    ensures
        (lex_one(s, i) matches Some(p) ==> tok_wf(p.0)),
{
    if 0 <= i < s.len() {
        let c = s[i];
        if c == '\'' {
            lemma_quote_end_props(s, i + 1);
        } else if is_ident_start(c) {
            lemma_ident_end_props(s, i);
            let j = ident_end(s, i);
            let w = s.subrange(i, j);
            assert(is_ident_char(s[i]));
            assert(ident_end(s, i) == ident_end(s, i + 1));
            lemma_ident_end_props(s, i + 1);
            assert(ident_end(s, i) > i);
            assert(w.len() > 0);
            assert(w[0] == s[i]);
            assert forall|k: int| 0 <= k < w.len() implies is_ident_char(#[trigger] w[k]) by {
                assert(w[k] == s[i + k]);
                assert(is_ident_char(s[i + k]));
            }
            assert(tok_wf(classify_word(w)));
        }
    }
}

/// Whatever the lexer returns is a well-formed token sequence.
proof fn lemma_lex_from_wf(s: Seq<char>, i: int)
    ensures
        (lex_from(s, i) matches Some(ts) ==> toks_wf(ts)),
    decreases s.len() - i,
{
    let j = skip_ws(s, i);
    if j >= s.len() {
    } else {
        lemma_skip_ws_lb(s, i);
        match lex_one(s, j) {
            None => {},
            Some((t, k)) => {
                lemma_lex_one_wf(s, j);
                if i <= j && j < k && k <= s.len() {
                    lemma_lex_from_wf(s, k);
                    match lex_from(s, k) {
                        None => {},
                        Some(ts) => {
                            assert forall|n: int| 0 <= n < (seq![t] + ts).len() implies tok_wf(
                                #[trigger] (seq![t] + ts)[n],
                            ) by {
                                if n > 0 {
                                    assert((seq![t] + ts)[n] == ts[n - 1]);
                                }
                            }
                        },
                    }
                }
            },
        }
    }
}

/// The lexer's output is well-formed, stated for other modules that
/// share the token stream.
pub(crate) proof fn lemma_lex_from_wf_pub(s: Seq<char>, i: int)
    ensures
        (lex_from(s, i) matches Some(ts) ==> toks_wf(ts)),
{
    lemma_lex_from_wf(s, i);
}

/// An operand parsed from well-formed tokens is well-formed.
proof fn lemma_operand_wf(ts: Seq<TokView>, i: int)
    requires
        toks_wf(ts),
    ensures
        (p_operand(ts, i) matches Some(p) ==> operand_view_wf(p.0)),
{
    if 0 <= i < ts.len() {
        assert(tok_wf(ts[i]));
    }
}

proof fn lemma_primary_wf(ts: Seq<TokView>, i: int)
    requires
        toks_wf(ts),
    ensures
        (p_primary(ts, i) matches Some(p) ==> expr_view_wf(p.0)),
    decreases ts.len() - i, 0nat,
{
    if 0 <= i < ts.len() {
        if ts[i] is LPar {
            lemma_expr_wf(ts, i + 1);
        } else {
            lemma_operand_wf(ts, i);
            match p_operand(ts, i) {
                None => {},
                Some((x, i1)) => {
                    if i1 < ts.len() {
                        lemma_operand_wf(ts, i1 + 1);
                    }
                },
            }
        }
    }
}

proof fn lemma_unary_wf(ts: Seq<TokView>, i: int)
    requires
        toks_wf(ts),
    ensures
        (p_unary(ts, i) matches Some(p) ==> expr_view_wf(p.0)),
    decreases ts.len() - i, 1nat,
{
    if 0 <= i < ts.len() && ts[i] is Not {
        lemma_unary_wf(ts, i + 1);
    } else {
        lemma_primary_wf(ts, i);
    }
}

proof fn lemma_and_wf(ts: Seq<TokView>, i: int)
    requires
        toks_wf(ts),
    ensures
        (p_and(ts, i) matches Some(p) ==> expr_view_wf(p.0)),
    decreases ts.len() - i, 2nat,
{
    lemma_unary_wf(ts, i);
    match p_unary(ts, i) {
        None => {},
        Some((a, j)) => {
            if i < j <= ts.len() {
                lemma_and_rest_wf(a, ts, j);
            }
        },
    }
}

proof fn lemma_and_rest_wf(acc: ExprView, ts: Seq<TokView>, j: int)
    requires
        toks_wf(ts),
        expr_view_wf(acc),
    ensures
        (p_and_rest(acc, ts, j) matches Some(p) ==> expr_view_wf(p.0)),
    decreases ts.len() - j, 3nat,
{
    if 0 <= j < ts.len() && ts[j] is And {
        lemma_unary_wf(ts, j + 1);
        match p_unary(ts, j + 1) {
            None => {},
            Some((b, k)) => {
                if j < k <= ts.len() {
                    lemma_and_rest_wf(ExprView::And(Box::new(acc), Box::new(b)), ts, k);
                }
            },
        }
    }
}

proof fn lemma_expr_wf(ts: Seq<TokView>, i: int)
    requires
        toks_wf(ts),
    ensures
        (p_expr(ts, i) matches Some(p) ==> expr_view_wf(p.0)),
    decreases ts.len() - i, 4nat,
{
    lemma_and_wf(ts, i);
    match p_and(ts, i) {
        None => {},
        Some((a, j)) => {
            if i < j <= ts.len() {
                lemma_or_rest_wf(a, ts, j);
            }
        },
    }
}

proof fn lemma_or_rest_wf(acc: ExprView, ts: Seq<TokView>, j: int)
    requires
        toks_wf(ts),
        expr_view_wf(acc),
    ensures
        (p_or_rest(acc, ts, j) matches Some(p) ==> expr_view_wf(p.0)),
    decreases ts.len() - j, 5nat,
{
    if 0 <= j < ts.len() && ts[j] is Or {
        lemma_and_wf(ts, j + 1);
        match p_and(ts, j + 1) {
            None => {},
            Some((b, k)) => {
                if j < k <= ts.len() {
                    lemma_or_rest_wf(ExprView::Or(Box::new(acc), Box::new(b)), ts, k);
                }
            },
        }
    }
}

/// Whatever the text surface form canonicalizes to is well-formed, so
/// the round-trip laws apply to every filter that ever parsed from text.
pub proof fn lemma_parsed_text_filter_wf(s: Seq<char>)
    ensures
        (parse_filter_text_spec(s) matches Some(e) ==> expr_view_wf(e)),
{
    lemma_lex_from_wf(s, 0);
    match lex_from(s, 0) {
        None => {},
        Some(ts) => {
            lemma_expr_wf(ts, 0);
        },
    }
}

// ---------------------------------------------------------------------
// The text surface form round-trips: parsing
// ---------------------------------------------------------------------

/// Every expression renders to at least one token.
proof fn lemma_toks_len_pos(e: ExprView)
    ensures
        toks_of(e).len() >= 1,
    decreases e,
{
    match e {
        ExprView::Not(a) => {
            lemma_toks_len_pos(*a);
        },
        _ => {},
    }
}

/// A well-formed expression renders to well-formed tokens only.
proof fn lemma_toks_wf(e: ExprView)
    requires
        expr_view_wf(e),
    ensures
        toks_wf(toks_of(e)),
    decreases e,
{
    match e {
        ExprView::Cmp(op, l, r) => {},
        ExprView::IsNull(x) => {},
        ExprView::And(a, b) => {
            lemma_toks_wf(*a);
            lemma_toks_wf(*b);
            let la = toks_of(*a).len() as int;
            let lb = toks_of(*b).len() as int;
            assert forall|k: int| 0 <= k < toks_of(e).len() implies tok_wf(
                #[trigger] toks_of(e)[k],
            ) by {
                if 1 <= k < 1 + la {
                    assert(toks_of(e)[k] == toks_of(*a)[k - 1]);
                } else if 2 + la <= k < 2 + la + lb {
                    assert(toks_of(e)[k] == toks_of(*b)[k - 2 - la]);
                }
            }
        },
        ExprView::Or(a, b) => {
            lemma_toks_wf(*a);
            lemma_toks_wf(*b);
            let la = toks_of(*a).len() as int;
            let lb = toks_of(*b).len() as int;
            assert forall|k: int| 0 <= k < toks_of(e).len() implies tok_wf(
                #[trigger] toks_of(e)[k],
            ) by {
                if 1 <= k < 1 + la {
                    assert(toks_of(e)[k] == toks_of(*a)[k - 1]);
                } else if 2 + la <= k < 2 + la + lb {
                    assert(toks_of(e)[k] == toks_of(*b)[k - 2 - la]);
                }
            }
        },
        ExprView::Not(a) => {
            lemma_toks_wf(*a);
            assert forall|k: int| 0 <= k < toks_of(e).len() implies tok_wf(
                #[trigger] toks_of(e)[k],
            ) by {
                if 1 <= k {
                    assert(toks_of(e)[k] == toks_of(*a)[k - 1]);
                }
            }
        },
    }
}

/// Wherever a well-formed expression's canonical tokens sit inside a
/// token stream, the unary level parses exactly that expression, ending
/// right after it.
#[verifier::rlimit(100)]
proof fn lemma_parse_unary_at(e: ExprView, ts: Seq<TokView>, i: int)
    requires
        expr_view_wf(e),
        0 <= i,
        i + toks_of(e).len() <= ts.len(),
        ts.subrange(i, i + toks_of(e).len()) == toks_of(e),
    ensures
        p_unary(ts, i) == Some((e, i + toks_of(e).len() as int)),
    decreases e,
{
    let le = toks_of(e).len() as int;
    assert forall|k: int| 0 <= k < le implies ts[i + k] == toks_of(e)[k] by {
        assert(ts.subrange(i, i + le)[k] == ts[i + k]);
    }
    match e {
        ExprView::Cmp(op, l, r) => {
            assert(ts[i] == opnd_tok(l)) by {
                assert(ts.subrange(i, i + le)[0] == ts[i]);
            }
            assert(ts[i + 1] == cmp_tok(op)) by {
                assert(ts.subrange(i, i + le)[1] == ts[i + 1]);
            }
            assert(ts[i + 2] == opnd_tok(r)) by {
                assert(ts.subrange(i, i + le)[2] == ts[i + 2]);
            }
            assert(p_operand(ts, i) == Some((l, i + 1)));
            assert(cmp_of_tok(ts[i + 1]) == Some(op));
            assert(p_operand(ts, i + 2) == Some((r, i + 3)));
        },
        ExprView::IsNull(x) => {
            assert(ts[i] == opnd_tok(x)) by {
                assert(ts.subrange(i, i + le)[0] == ts[i]);
            }
            assert(ts[i + 1] == TokView::Is) by {
                assert(ts.subrange(i, i + le)[1] == ts[i + 1]);
            }
            assert(ts[i + 2] == TokView::Null) by {
                assert(ts.subrange(i, i + le)[2] == ts[i + 2]);
            }
            assert(p_operand(ts, i) == Some((x, i + 1)));
            assert(cmp_of_tok(ts[i + 1]) is None);
        },
        ExprView::Not(a) => {
            assert(ts[i] == TokView::Not) by {
                assert(ts.subrange(i, i + le)[0] == ts[i]);
                assert(toks_of(e)[0] == TokView::Not);
            }
            let la = toks_of(*a).len() as int;
            assert(ts.subrange(i + 1, i + 1 + la) =~= toks_of(*a)) by {
                assert forall|k: int| 0 <= k < la implies ts.subrange(i + 1, i + 1 + la)[k]
                    == toks_of(*a)[k] by {
                    assert(ts.subrange(i + 1, i + 1 + la)[k] == ts[i + 1 + k]);
                    assert(ts.subrange(i, i + le)[1 + k] == ts[i + 1 + k]);
                    assert(toks_of(e)[1 + k] == toks_of(*a)[k]);
                }
            }
            lemma_parse_unary_at(*a, ts, i + 1);
        },
        ExprView::And(a, b) => {
            let la = toks_of(*a).len() as int;
            let lb = toks_of(*b).len() as int;
            lemma_toks_len_pos(*a);
            lemma_toks_len_pos(*b);
            assert(ts[i] == TokView::LPar) by {
                assert(ts.subrange(i, i + le)[0] == ts[i]);
                assert(toks_of(e)[0] == TokView::LPar);
            }
            assert(ts[i + 1 + la] == TokView::And) by {
                assert(ts.subrange(i, i + le)[1 + la] == ts[i + 1 + la]);
                assert(toks_of(e)[1 + la] == TokView::And);
            }
            assert(ts[i + le - 1] == TokView::RPar) by {
                assert(ts.subrange(i, i + le)[le - 1] == ts[i + le - 1]);
                assert(toks_of(e)[le - 1] == TokView::RPar);
            }
            assert(ts.subrange(i + 1, i + 1 + la) =~= toks_of(*a)) by {
                assert forall|k: int| 0 <= k < la implies ts.subrange(i + 1, i + 1 + la)[k]
                    == toks_of(*a)[k] by {
                    assert(ts.subrange(i + 1, i + 1 + la)[k] == ts[i + 1 + k]);
                    assert(ts.subrange(i, i + le)[1 + k] == ts[i + 1 + k]);
                    assert(toks_of(e)[1 + k] == toks_of(*a)[k]);
                }
            }
            assert(ts.subrange(i + 2 + la, i + 2 + la + lb) =~= toks_of(*b)) by {
                assert forall|k: int| 0 <= k < lb implies ts.subrange(
                    i + 2 + la,
                    i + 2 + la + lb,
                )[k] == toks_of(*b)[k] by {
                    assert(ts.subrange(i + 2 + la, i + 2 + la + lb)[k] == ts[i + 2 + la + k]);
                    assert(ts.subrange(i, i + le)[2 + la + k] == ts[i + 2 + la + k]);
                    assert(toks_of(e)[2 + la + k] == toks_of(*b)[k]);
                }
            }
            lemma_parse_unary_at(*a, ts, i + 1);
            lemma_parse_unary_at(*b, ts, i + 2 + la);
            let ja = i + 1 + la;
            let jb = i + 2 + la + lb;
            assert(p_unary(ts, i + 1) == Some((*a, ja)));
            assert(p_unary(ts, ja + 1) == Some((*b, jb)));
            assert(p_and_rest(ExprView::And(a, b), ts, jb) == Some((ExprView::And(a, b), jb)));
            assert(p_and_rest(*a, ts, ja) == Some((ExprView::And(a, b), jb)));
            assert(p_and(ts, i + 1) == Some((ExprView::And(a, b), jb)));
            assert(p_or_rest(ExprView::And(a, b), ts, jb) == Some((ExprView::And(a, b), jb)));
            assert(p_expr(ts, i + 1) == Some((ExprView::And(a, b), jb)));
            assert(p_primary(ts, i) == Some((e, jb + 1)));
        },
        ExprView::Or(a, b) => {
            let la = toks_of(*a).len() as int;
            let lb = toks_of(*b).len() as int;
            lemma_toks_len_pos(*a);
            lemma_toks_len_pos(*b);
            assert(ts[i] == TokView::LPar) by {
                assert(ts.subrange(i, i + le)[0] == ts[i]);
                assert(toks_of(e)[0] == TokView::LPar);
            }
            assert(ts[i + 1 + la] == TokView::Or) by {
                assert(ts.subrange(i, i + le)[1 + la] == ts[i + 1 + la]);
                assert(toks_of(e)[1 + la] == TokView::Or);
            }
            assert(ts[i + le - 1] == TokView::RPar) by {
                assert(ts.subrange(i, i + le)[le - 1] == ts[i + le - 1]);
                assert(toks_of(e)[le - 1] == TokView::RPar);
            }
            assert(ts.subrange(i + 1, i + 1 + la) =~= toks_of(*a)) by {
                assert forall|k: int| 0 <= k < la implies ts.subrange(i + 1, i + 1 + la)[k]
                    == toks_of(*a)[k] by {
                    assert(ts.subrange(i + 1, i + 1 + la)[k] == ts[i + 1 + k]);
                    assert(ts.subrange(i, i + le)[1 + k] == ts[i + 1 + k]);
                    assert(toks_of(e)[1 + k] == toks_of(*a)[k]);
                }
            }
            assert(ts.subrange(i + 2 + la, i + 2 + la + lb) =~= toks_of(*b)) by {
                assert forall|k: int| 0 <= k < lb implies ts.subrange(
                    i + 2 + la,
                    i + 2 + la + lb,
                )[k] == toks_of(*b)[k] by {
                    assert(ts.subrange(i + 2 + la, i + 2 + la + lb)[k] == ts[i + 2 + la + k]);
                    assert(ts.subrange(i, i + le)[2 + la + k] == ts[i + 2 + la + k]);
                    assert(toks_of(e)[2 + la + k] == toks_of(*b)[k]);
                }
            }
            lemma_parse_unary_at(*a, ts, i + 1);
            lemma_parse_unary_at(*b, ts, i + 2 + la);
            let ja = i + 1 + la;
            let jb = i + 2 + la + lb;
            assert(p_unary(ts, i + 1) == Some((*a, ja)));
            assert(p_unary(ts, ja + 1) == Some((*b, jb)));
            assert(p_and_rest(*a, ts, ja) == Some((*a, ja)));
            assert(p_and(ts, i + 1) == Some((*a, ja)));
            assert(p_and_rest(*b, ts, jb) == Some((*b, jb)));
            assert(p_and(ts, ja + 1) == Some((*b, jb)));
            assert(p_or_rest(ExprView::Or(a, b), ts, jb) == Some((ExprView::Or(a, b), jb)));
            assert(p_or_rest(*a, ts, ja) == Some((ExprView::Or(a, b), jb)));
            assert(p_expr(ts, i + 1) == Some((ExprView::Or(a, b), jb)));
            assert(p_primary(ts, i) == Some((e, jb + 1)));
        },
    }
}

/// The canonical token sequence of a well-formed expression parses back
/// to exactly that expression, consuming every token.
proof fn lemma_parse_toks_round_trip(e: ExprView)
    requires
        expr_view_wf(e),
    ensures
        parse_toks_spec(toks_of(e)) == Some(e),
{
    let ts = toks_of(e);
    let le = ts.len() as int;
    lemma_toks_len_pos(e);
    assert(ts.subrange(0, le) =~= ts);
    lemma_parse_unary_at(e, ts, 0);
    assert(p_unary(ts, 0) == Some((e, le)));
    assert(p_and_rest(e, ts, le) == Some((e, le)));
    assert(p_and(ts, 0) == Some((e, le)));
    assert(p_or_rest(e, ts, le) == Some((e, le)));
    assert(p_expr(ts, 0) == Some((e, le)));
}

/// The equivalence of surface forms, text side: rendering a well-formed
/// canonical expression to text and parsing that text yields the same
/// expression again.  Together with the contract of [`filter_to_json`],
/// this says the two surface forms of one expression canonicalize
/// identically.
pub proof fn lemma_filter_text_round_trip(e: ExprView)
    requires
        expr_view_wf(e),
    ensures
        parse_filter_text_spec(filter_text_of(e)) == Some(e),
{
    let ts = toks_of(e);
    let s = filter_text_of(e);
    lemma_toks_wf(e);
    assert(s.subrange(0, s.len() as int) =~= s);
    lemma_lex_text_at(ts, s, 0);
    lemma_parse_toks_round_trip(e);
}

// ---------------------------------------------------------------------
// The JSON surface form
// ---------------------------------------------------------------------
//
// The structured surface form is the canonical expression-tree JSON:
// every node an object of exactly two members, `"args"` before `"op"` (the
// order a key-sorting serializer produces), conjunction and disjunction
// nested in pairs, and a property reference an object of the single
// member `"property"`.

/// `"args"`.
pub open spec fn args_key() -> Seq<char> {
    seq!['a', 'r', 'g', 's']
}

/// `"op"`.
pub open spec fn op_key() -> Seq<char> {
    seq!['o', 'p']
}

/// `"property"`.
pub open spec fn property_key() -> Seq<char> {
    seq!['p', 'r', 'o', 'p', 'e', 'r', 't', 'y']
}

/// The operator name of a comparison.
pub open spec fn cmp_name(op: CmpOp) -> Seq<char> {
    match op {
        CmpOp::Eq => seq!['='],
        CmpOp::Ne => seq!['<', '>'],
        CmpOp::Lt => seq!['<'],
        CmpOp::Le => seq!['<', '='],
        CmpOp::Gt => seq!['>'],
        CmpOp::Ge => seq!['>', '='],
    }
}

/// The comparison a JSON operator name stands for, if any.
pub open spec fn cmp_of_name(w: Seq<char>) -> Option<CmpOp> {
    if w == cmp_name(CmpOp::Eq) {
        Some(CmpOp::Eq)
    } else if w == cmp_name(CmpOp::Ne) {
        Some(CmpOp::Ne)
    } else if w == cmp_name(CmpOp::Le) {
        Some(CmpOp::Le)
    } else if w == cmp_name(CmpOp::Lt) {
        Some(CmpOp::Lt)
    } else if w == cmp_name(CmpOp::Ge) {
        Some(CmpOp::Ge)
    } else if w == cmp_name(CmpOp::Gt) {
        Some(CmpOp::Gt)
    } else {
        None
    }
}

/// `"and"`, `"or"`, `"not"`, `"isNull"`.
pub open spec fn and_name() -> Seq<char> {
    seq!['a', 'n', 'd']
}

/// See [`and_name`].
pub open spec fn or_name() -> Seq<char> {
    seq!['o', 'r']
}

/// See [`and_name`].
pub open spec fn not_name() -> Seq<char> {
    seq!['n', 'o', 't']
}

/// See [`and_name`].
pub open spec fn is_null_name() -> Seq<char> {
    seq!['i', 's', 'N', 'u', 'l', 'l']
}

/// One operand of the JSON surface form.
pub open spec fn parse_json_operand(v: JsonValue) -> Option<OperandView> {
    match v {
        JsonValue::Object(ms) => if ms@.len() == 1 && ms@[0].0@ == property_key() {
            match ms@[0].1 {
                JsonValue::Str(p) => Some(OperandView::Property(p@)),
                _ => None,
            }
        } else {
            None
        },
        JsonValue::Str(s) => Some(OperandView::Str(s@)),
        JsonValue::Num(n) => Some(OperandView::Num(n@)),
        JsonValue::Bool(b) => Some(OperandView::Bool(b)),
        JsonValue::Null => Some(OperandView::Null),
        _ => None,
    }
}

/// The JSON surface form, canonicalized.
#[verifier::opaque]
pub open spec fn parse_filter_json_spec(v: JsonValue) -> Option<ExprView>
    decreases v,
{
    match v {
        JsonValue::Object(ms) => if ms@.len() == 2 && ms@[0].0@ == args_key() && ms@[1].0@
            == op_key() {
            match (ms@[0].1, ms@[1].1) {
                (JsonValue::Array(args), JsonValue::Str(op)) => {
                    if op@ == and_name() && args@.len() == 2 {
                        match (parse_filter_json_spec(args@[0]), parse_filter_json_spec(
                            args@[1],
                        )) {
                            (Some(a), Some(b)) => Some(ExprView::And(Box::new(a), Box::new(b))),
                            _ => None,
                        }
                    } else if op@ == or_name() && args@.len() == 2 {
                        match (parse_filter_json_spec(args@[0]), parse_filter_json_spec(
                            args@[1],
                        )) {
                            (Some(a), Some(b)) => Some(ExprView::Or(Box::new(a), Box::new(b))),
                            _ => None,
                        }
                    } else if op@ == not_name() && args@.len() == 1 {
                        match parse_filter_json_spec(args@[0]) {
                            Some(a) => Some(ExprView::Not(Box::new(a))),
                            None => None,
                        }
                    } else if op@ == is_null_name() && args@.len() == 1 {
                        match parse_json_operand(args@[0]) {
                            Some(x) => Some(ExprView::IsNull(x)),
                            None => None,
                        }
                    } else {
                        match cmp_of_name(op@) {
                            Some(c) => if args@.len() == 2 {
                                match (parse_json_operand(args@[0]), parse_json_operand(
                                    args@[1],
                                )) {
                                    (Some(x), Some(y)) => Some(ExprView::Cmp(c, x, y)),
                                    _ => None,
                                }
                            } else {
                                None
                            },
                            None => None,
                        }
                    }
                },
                _ => None,
            }
        } else {
            None
        },
        _ => None,
    }
}

/// Whether a string holds exactly the given literal.
pub(crate) fn string_is(s: &String, lit: &str) -> (r: bool)
    ensures
        r == (s@ == lit@),
{
    let o: String = lit.to_owned();
    s.eq(&o)
}

/// Exec mirror of [`parse_json_operand`].
fn parse_json_operand_exec(v: &JsonValue) -> (r: Option<Operand>)
    ensures
        (match parse_json_operand(*v) {
            Option::None => r is None,
            Option::Some(x) => r matches Some(o) && o@ == x,
        }),
{
    proof {
        reveal_strlit("property");
        assert("property"@ =~= property_key());
    }
    match v {
        JsonValue::Object(ms) => {
            if ms.len() == 1 && string_is(&ms[0].0, "property") {
                match &ms[0].1 {
                    JsonValue::Str(p) => Some(Operand::Property(p.clone())),
                    _ => None,
                }
            } else {
                None
            }
        },
        JsonValue::Str(s) => Some(Operand::Str(s.clone())),
        JsonValue::Num(n) => Some(Operand::Num(n.clone())),
        JsonValue::Bool(b) => Some(Operand::Bool(*b)),
        JsonValue::Null => Some(Operand::Null),
        _ => None,
    }
}

/// Parses the canonical JSON surface form into the canonical expression,
/// or reports precisely that the value is not in that form.
pub fn parse_filter_json(v: &JsonValue) -> (r: Result<Expr, Error>)
    ensures
        (match parse_filter_json_spec(*v) {
            Option::None => r matches Err(e) && e is Validation,
            Option::Some(ev) => r matches Ok(e) && e@ == ev,
        }),
    decreases *v,
{
    proof {
        reveal(parse_filter_json_spec);
        reveal_strlit("args");
        reveal_strlit("op");
        reveal_strlit("and");
        reveal_strlit("or");
        reveal_strlit("not");
        reveal_strlit("isNull");
        reveal_strlit("=");
        reveal_strlit("<>");
        reveal_strlit("<");
        reveal_strlit("<=");
        reveal_strlit(">");
        reveal_strlit(">=");
        assert("args"@ =~= args_key());
        assert("op"@ =~= op_key());
        assert("and"@ =~= and_name());
        assert("or"@ =~= or_name());
        assert("not"@ =~= not_name());
        assert("isNull"@ =~= is_null_name());
        assert("="@ =~= cmp_name(CmpOp::Eq));
        assert("<>"@ =~= cmp_name(CmpOp::Ne));
        assert("<"@ =~= cmp_name(CmpOp::Lt));
        assert("<="@ =~= cmp_name(CmpOp::Le));
        assert(">"@ =~= cmp_name(CmpOp::Gt));
        assert(">="@ =~= cmp_name(CmpOp::Ge));
    }
    let bad = "filter JSON is not a canonical filter expression";
    let ghost g = *v;
    match v {
        JsonValue::Object(ms) => {
            if !(ms.len() == 2 && string_is(&ms[0].0, "args") && string_is(&ms[1].0, "op")) {
                proof {
                    reveal(parse_filter_json_spec);
                    assert(parse_filter_json_spec(g) is None);
                }
                return Err(Error::Validation(bad.to_owned()));
            }
            match (&ms[0].1, &ms[1].1) {
                (JsonValue::Array(args), JsonValue::Str(op)) => {
                    if string_is(op, "and") && args.len() == 2 {
                        let ra = parse_filter_json(&args[0]);
                        let rb = parse_filter_json(&args[1]);
                        match (ra, rb) {
                            (Ok(a), Ok(b)) => {
                                let e = Expr::And(Box::new(a), Box::new(b));
                                proof {
                                    reveal(parse_filter_json_spec);
                                    assert(parse_filter_json_spec(g) == Some(e@));
                                }
                                Ok(e)
                            },
                            _ => {
                                proof {
                                    reveal(parse_filter_json_spec);
                                    assert(parse_filter_json_spec(g) is None);
                                }
                                Err(Error::Validation(bad.to_owned()))
                            },
                        }
                    } else if string_is(op, "or") && args.len() == 2 {
                        let ra = parse_filter_json(&args[0]);
                        let rb = parse_filter_json(&args[1]);
                        match (ra, rb) {
                            (Ok(a), Ok(b)) => {
                                let e = Expr::Or(Box::new(a), Box::new(b));
                                proof {
                                    reveal(parse_filter_json_spec);
                                    assert(parse_filter_json_spec(g) == Some(e@));
                                }
                                Ok(e)
                            },
                            _ => {
                                proof {
                                    reveal(parse_filter_json_spec);
                                    assert(parse_filter_json_spec(g) is None);
                                }
                                Err(Error::Validation(bad.to_owned()))
                            },
                        }
                    } else if string_is(op, "not") && args.len() == 1 {
                        match parse_filter_json(&args[0]) {
                            Ok(a) => {
                                let e = Expr::Not(Box::new(a));
                                proof {
                                    reveal(parse_filter_json_spec);
                                    assert(parse_filter_json_spec(g) == Some(e@));
                                }
                                Ok(e)
                            },
                            Err(_) => {
                                proof {
                                    reveal(parse_filter_json_spec);
                                    assert(parse_filter_json_spec(g) is None);
                                }
                                Err(Error::Validation(bad.to_owned()))
                            },
                        }
                    } else if string_is(op, "isNull") && args.len() == 1 {
                        match parse_json_operand_exec(&args[0]) {
                            Option::Some(x) => {
                                let e = Expr::IsNull(x);
                                proof {
                                    reveal(parse_filter_json_spec);
                                    assert(parse_filter_json_spec(g) == Some(e@));
                                }
                                Ok(e)
                            },
                            Option::None => {
                                proof {
                                    reveal(parse_filter_json_spec);
                                    assert(parse_filter_json_spec(g) is None);
                                }
                                Err(Error::Validation(bad.to_owned()))
                            },
                        }
                    } else {
                        let c: Option<CmpOp> = if string_is(op, "=") {
                            Some(CmpOp::Eq)
                        } else if string_is(op, "<>") {
                            Some(CmpOp::Ne)
                        } else if string_is(op, "<=") {
                            Some(CmpOp::Le)
                        } else if string_is(op, "<") {
                            Some(CmpOp::Lt)
                        } else if string_is(op, ">=") {
                            Some(CmpOp::Ge)
                        } else if string_is(op, ">") {
                            Some(CmpOp::Gt)
                        } else {
                            None
                        };
                        proof {
                            assert(c == cmp_of_name(op@));
                        }
                        match c {
                            Option::None => {
                                proof {
                                    reveal(parse_filter_json_spec);
                                    assert(parse_filter_json_spec(g) is None);
                                }
                                Err(Error::Validation(bad.to_owned()))
                            },
                            Option::Some(cop) => {
                                if args.len() == 2 {
                                    match (parse_json_operand_exec(&args[0]),
                                    parse_json_operand_exec(&args[1])) {
                                        (Option::Some(x), Option::Some(y)) => {
                                            let e = Expr::Cmp(cop, x, y);
                                            proof {
                                                reveal(parse_filter_json_spec);
                                                assert(parse_filter_json_spec(g) == Some(e@));
                                            }
                                            Ok(e)
                                        },
                                        _ => {
                                            proof {
                                                reveal(parse_filter_json_spec);
                                                assert(parse_filter_json_spec(g) is None);
                                            }
                                            Err(Error::Validation(bad.to_owned()))
                                        },
                                    }
                                } else {
                                    proof {
                                        reveal(parse_filter_json_spec);
                                        assert(parse_filter_json_spec(g) is None);
                                    }
                                    Err(Error::Validation(bad.to_owned()))
                                }
                            },
                        }
                    }
                },
                _ => {
                    proof {
                        reveal(parse_filter_json_spec);
                        assert(parse_filter_json_spec(g) is None);
                    }
                    Err(Error::Validation(bad.to_owned()))
                },
            }
        },
        _ => {
            proof {
                reveal(parse_filter_json_spec);
                assert(parse_filter_json_spec(g) is None);
            }
            Err(Error::Validation(bad.to_owned()))
        },
    }
}

/// The canonical JSON value of one operand.
fn operand_to_json(x: &Operand) -> (r: JsonValue)
    ensures
        parse_json_operand(r) == Some(x@),
{
    proof {
        reveal_strlit("property");
        assert("property"@ =~= property_key());
    }
    match x {
        Operand::Property(p) => {
            let mut ms: Vec<(String, JsonValue)> = Vec::new();
            ms.push(("property".to_owned(), JsonValue::Str(p.clone())));
            JsonValue::Object(ms)
        },
        Operand::Str(s) => JsonValue::Str(s.clone()),
        Operand::Num(n) => JsonValue::Num(n.clone()),
        Operand::Bool(b) => JsonValue::Bool(*b),
        Operand::Null => JsonValue::Null,
    }
}

/// Builds the two-member expression node around an operator name and its
/// argument list.
fn json_node(op_name: &str, args: Vec<JsonValue>) -> (r: JsonValue)
    ensures
        (r matches JsonValue::Object(ms) && ms@.len() == 2 && ms@[0].0@ == "args"@ && (
        ms@[0].1 matches JsonValue::Array(a) && a@ == args@) && ms@[1].0@ == "op"@ && (
        ms@[1].1 matches JsonValue::Str(o) && o@ == op_name@)),
{
    let mut ms: Vec<(String, JsonValue)> = Vec::new();
    ms.push(("args".to_owned(), JsonValue::Array(args)));
    ms.push(("op".to_owned(), JsonValue::Str(op_name.to_owned())));
    JsonValue::Object(ms)
}

/// The JSON operator name of a comparison.
fn cmp_name_str(op: &CmpOp) -> (r: &'static str)
    ensures
        r@ == cmp_name(*op),
{
    match op {
        CmpOp::Eq => {
            proof {
                reveal_strlit("=");
                assert("="@ =~= cmp_name(CmpOp::Eq));
            }
            "="
        },
        CmpOp::Ne => {
            proof {
                reveal_strlit("<>");
                assert("<>"@ =~= cmp_name(CmpOp::Ne));
            }
            "<>"
        },
        CmpOp::Lt => {
            proof {
                reveal_strlit("<");
                assert("<"@ =~= cmp_name(CmpOp::Lt));
            }
            "<"
        },
        CmpOp::Le => {
            proof {
                reveal_strlit("<=");
                assert("<="@ =~= cmp_name(CmpOp::Le));
            }
            "<="
        },
        CmpOp::Gt => {
            proof {
                reveal_strlit(">");
                assert(">"@ =~= cmp_name(CmpOp::Gt));
            }
            ">"
        },
        CmpOp::Ge => {
            proof {
                reveal_strlit(">=");
                assert(">="@ =~= cmp_name(CmpOp::Ge));
            }
            ">="
        },
    }
}

/// An operator name maps back to its comparison.
proof fn lemma_cmp_name_round(c: CmpOp)
    ensures
        cmp_of_name(cmp_name(c)) == Some(c),
{
    assert(cmp_name(CmpOp::Eq).len() == 1);
    assert(cmp_name(CmpOp::Ne).len() == 2);
    assert(cmp_name(CmpOp::Lt).len() == 1);
    assert(cmp_name(CmpOp::Le).len() == 2);
    assert(cmp_name(CmpOp::Gt).len() == 1);
    assert(cmp_name(CmpOp::Ge).len() == 2);
    assert(cmp_name(CmpOp::Eq)[0] == '=');
    assert(cmp_name(CmpOp::Lt)[0] == '<');
    assert(cmp_name(CmpOp::Gt)[0] == '>');
    assert(cmp_name(CmpOp::Ne)[0] == '<');
    assert(cmp_name(CmpOp::Ne)[1] == '>');
    assert(cmp_name(CmpOp::Le)[0] == '<');
    assert(cmp_name(CmpOp::Le)[1] == '=');
    assert(cmp_name(CmpOp::Ge)[0] == '>');
    assert(cmp_name(CmpOp::Ge)[1] == '=');
}

/// Serializes the canonical expression as its canonical JSON surface
/// form — and that value parses back to exactly the same expression, which
/// is the JSON half of the equivalence of surface forms.
pub fn filter_to_json(e: &Expr) -> (r: JsonValue)
    ensures
        parse_filter_json_spec(r) == Some(e@),
    decreases *e,
{
    proof {
        reveal(parse_filter_json_spec);
        reveal_strlit("args");
        reveal_strlit("op");
        reveal_strlit("and");
        reveal_strlit("or");
        reveal_strlit("not");
        reveal_strlit("isNull");
        reveal_strlit("=");
        reveal_strlit("<>");
        reveal_strlit("<");
        reveal_strlit("<=");
        reveal_strlit(">");
        reveal_strlit(">=");
        assert("args"@ =~= args_key());
        assert("op"@ =~= op_key());
        assert("and"@ =~= and_name());
        assert("or"@ =~= or_name());
        assert("not"@ =~= not_name());
        assert("isNull"@ =~= is_null_name());
        assert("="@ =~= cmp_name(CmpOp::Eq));
        assert("<>"@ =~= cmp_name(CmpOp::Ne));
        assert("<"@ =~= cmp_name(CmpOp::Lt));
        assert("<="@ =~= cmp_name(CmpOp::Le));
        assert(">"@ =~= cmp_name(CmpOp::Gt));
        assert(">="@ =~= cmp_name(CmpOp::Ge));
    }
    match e {
        Expr::And(a, b) => {
            let ja = filter_to_json(a);
            let jb = filter_to_json(b);
            let mut args: Vec<JsonValue> = Vec::new();
            args.push(ja);
            args.push(jb);
            let r = json_node("and", args);
            proof {
                reveal(parse_filter_json_spec);
                assert(parse_filter_json_spec(r) == Some(e@));
            }
            r
        },
        Expr::Or(a, b) => {
            let ja = filter_to_json(a);
            let jb = filter_to_json(b);
            let mut args: Vec<JsonValue> = Vec::new();
            args.push(ja);
            args.push(jb);
            let r = json_node("or", args);
            proof {
                reveal(parse_filter_json_spec);
                assert(parse_filter_json_spec(r) == Some(e@));
            }
            r
        },
        Expr::Not(a) => {
            let ja = filter_to_json(a);
            let mut args: Vec<JsonValue> = Vec::new();
            args.push(ja);
            let r = json_node("not", args);
            proof {
                reveal(parse_filter_json_spec);
                assert(parse_filter_json_spec(r) == Some(e@));
            }
            r
        },
        Expr::IsNull(x) => {
            let jx = operand_to_json(x);
            let mut args: Vec<JsonValue> = Vec::new();
            args.push(jx);
            let r = json_node("isNull", args);
            proof {
                reveal(parse_filter_json_spec);
                assert(parse_filter_json_spec(r) == Some(e@));
            }
            r
        },
        Expr::Cmp(op, l, r) => {
            let jl = operand_to_json(l);
            let jr = operand_to_json(r);
            let mut args: Vec<JsonValue> = Vec::new();
            args.push(jl);
            args.push(jr);
            let name: &str = cmp_name_str(op);
            let r = json_node(name, args);
            proof {
                lemma_cmp_name_round(*op);
                reveal(parse_filter_json_spec);
                assert(parse_filter_json_spec(r) == Some(e@));
            }
            r
        },
    }
}

} // verus!
