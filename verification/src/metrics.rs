//! The metric-expression language: parsing a derived metric's formula,
//! extracting the hardware events it depends on, and evaluating it against
//! concrete event values.
//!
//! Formulas are arithmetic over named events with exact rational constants:
//! comma-joined arguments (only inside `min(...)`) bind loosest, then a
//! trailing `value if condition else alternative` conditional, then `+`/`-`,
//! then `*`/`/`, all left-associative.  Identifiers may contain letters,
//! digits, `.`, `_` and `#` (pseudo-variables such as an SMT flag start with
//! `#`); numeric literals are base-10 with an optional fraction.

use vstd::prelude::*;
use vstd::string::StrSliceExecFns;
use vstd::string::StringExecFns;

use crate::errors::Error;

verus! {

/// An exact rational number: the value `num / den` with `den > 0`.
///
/// Formula constants and event values are rationals, so evaluation is exact
/// and deterministic; results are not reduced to lowest terms.
#[derive(Debug, Clone, Copy, PartialEq, Eq, Structural)]
pub struct Rational {
    /// Numerator; carries the sign.
    pub num: i64,
    /// Denominator; positive in every well-formed value.
    pub den: i64,
}

impl Rational {
    /// Well-formedness: the denominator is positive.
    pub open spec fn wf(&self) -> bool {
        self.den > 0
    }

    /// The rational `n / 1`.
    pub fn from_int(n: i64) -> (r: Rational)
        ensures
            r.num == n,
            r.den == 1,
            r.wf(),
    {
        Rational { num: n, den: 1 }
    }
}

/// Parsed (sub)expression of a derived metric's formula.
#[derive(Debug)]
pub enum MetricExpr {
    /// A constant number.
    Num(Rational),
    /// A PMU event, or a `#`-prefixed pseudo-variable the caller's lookup
    /// must also supply.
    Var(String),
    /// Addition operator.
    Add(Box<MetricExpr>, Box<MetricExpr>),
    /// Subtraction operator.
    Sub(Box<MetricExpr>, Box<MetricExpr>),
    /// Multiplication operator.
    Mul(Box<MetricExpr>, Box<MetricExpr>),
    /// Division operator.
    Div(Box<MetricExpr>, Box<MetricExpr>),
    /// Conditional: condition, value when the condition is non-zero, value
    /// otherwise.
    If(Box<MetricExpr>, Box<MetricExpr>, Box<MetricExpr>),
    /// Minimum over its comma-joined argument list.
    Min(Box<MetricExpr>),
    /// Comma-separated expression, used only as the argument list of `Min`.
    Comma(Box<MetricExpr>, Box<MetricExpr>),
}

/// Mathematical model of a formula expression.
pub enum ExprModel {
    /// A constant `num / den`.
    Num {
        /// Numerator.
        num: int,
        /// Denominator.
        den: int,
    },
    /// A named event.
    Var(Seq<char>),
    /// Addition.
    Add(Box<ExprModel>, Box<ExprModel>),
    /// Subtraction.
    Sub(Box<ExprModel>, Box<ExprModel>),
    /// Multiplication.
    Mul(Box<ExprModel>, Box<ExprModel>),
    /// Division.
    Div(Box<ExprModel>, Box<ExprModel>),
    /// Conditional: condition, value when non-zero, value otherwise.
    If(Box<ExprModel>, Box<ExprModel>, Box<ExprModel>),
    /// Minimum over a comma-joined list.
    Min(Box<ExprModel>),
    /// Comma-joined pair inside a `Min` argument list.
    Comma(Box<ExprModel>, Box<ExprModel>),
}

/// The mathematical model of an expression.
pub open spec fn expr_model(e: MetricExpr) -> ExprModel
    decreases e,
{
    match e {
        MetricExpr::Num(q) => ExprModel::Num { num: q.num as int, den: q.den as int },
        MetricExpr::Var(s) => ExprModel::Var(s@),
        MetricExpr::Add(a, b) => ExprModel::Add(
            Box::new(expr_model(*a)),
            Box::new(expr_model(*b)),
        ),
        MetricExpr::Sub(a, b) => ExprModel::Sub(
            Box::new(expr_model(*a)),
            Box::new(expr_model(*b)),
        ),
        MetricExpr::Mul(a, b) => ExprModel::Mul(
            Box::new(expr_model(*a)),
            Box::new(expr_model(*b)),
        ),
        MetricExpr::Div(a, b) => ExprModel::Div(
            Box::new(expr_model(*a)),
            Box::new(expr_model(*b)),
        ),
        MetricExpr::If(c, t, e2) => ExprModel::If(
            Box::new(expr_model(*c)),
            Box::new(expr_model(*t)),
            Box::new(expr_model(*e2)),
        ),
        MetricExpr::Min(a) => ExprModel::Min(Box::new(expr_model(*a))),
        MetricExpr::Comma(a, b) => ExprModel::Comma(
            Box::new(expr_model(*a)),
            Box::new(expr_model(*b)),
        ),
    }
}

impl View for MetricExpr {
    type V = ExprModel;

    open spec fn view(&self) -> ExprModel {
        expr_model(*self)
    }
}

/// One token of a formula.
#[derive(Debug, Clone)]
pub enum Token {
    /// A numeric literal.
    Number(Rational),
    /// An identifier that is not a keyword.
    Ident(String),
    /// `+`
    Plus,
    /// `-`
    Minus,
    /// `*`
    Star,
    /// `/`
    Slash,
    /// `,`
    Comma,
    /// `(`
    LParen,
    /// `)`
    RParen,
    /// `if`
    KwIf,
    /// `else`
    KwElse,
    /// `min`
    KwMin,
}

/// Mathematical model of one token.
pub enum TokenModel {
    /// A numeric literal `num / den`.
    Number {
        /// Numerator.
        num: int,
        /// Denominator.
        den: int,
    },
    /// An identifier.
    Ident(Seq<char>),
    /// `+`
    Plus,
    /// `-`
    Minus,
    /// `*`
    Star,
    /// `/`
    Slash,
    /// `,`
    Comma,
    /// `(`
    LParen,
    /// `)`
    RParen,
    /// `if`
    KwIf,
    /// `else`
    KwElse,
    /// `min`
    KwMin,
}

impl View for Token {
    type V = TokenModel;

    open spec fn view(&self) -> TokenModel {
        match self {
            Token::Number(q) => TokenModel::Number { num: q.num as int, den: q.den as int },
            Token::Ident(s) => TokenModel::Ident(s@),
            Token::Plus => TokenModel::Plus,
            Token::Minus => TokenModel::Minus,
            Token::Star => TokenModel::Star,
            Token::Slash => TokenModel::Slash,
            Token::Comma => TokenModel::Comma,
            Token::LParen => TokenModel::LParen,
            Token::RParen => TokenModel::RParen,
            Token::KwIf => TokenModel::KwIf,
            Token::KwElse => TokenModel::KwElse,
            Token::KwMin => TokenModel::KwMin,
        }
    }
}

/// The models of a token vector.
pub open spec fn tokens_model(ts: Seq<Token>) -> Seq<TokenModel> {
    ts.map_values(|t: Token| t@)
}

/// Whether `c` is formula whitespace.
pub open spec fn is_space(c: char) -> bool {
    c == ' ' || c == '\t' || c == '\n' || c == '\r'
}

/// Whether `c` is a decimal digit.
pub open spec fn is_digit(c: char) -> bool {
    '0' <= c && c <= '9'
}

/// Whether `c` may appear in an identifier: letters, digits, `.`, `_` and
/// `#`.
pub open spec fn is_ident_char(c: char) -> bool {
    ('a' <= c && c <= 'z') || ('A' <= c && c <= 'Z') || is_digit(c) || c == '.' || c == '_' || c
        == '#'
}

/// The numeric value of a digit character.
pub open spec fn digit_val(c: char) -> int {
    c as int - '0' as int
}

/// The first position at or after `i` that does not hold an identifier
/// character.
pub open spec fn ident_end(s: Seq<char>, i: int) -> int
    decreases s.len() - i,
{
    if 0 <= i < s.len() && is_ident_char(s[i]) {
        ident_end(s, i + 1)
    } else {
        i
    }
}

/// Fold decimal digits from position `i` onto `acc`, stopping at the first
/// non-digit; fails where the value would leave the signed 64-bit range.
/// Yields the value and the position after the digits.
pub open spec fn scan_int(s: Seq<char>, i: int, acc: int) -> Option<(int, int)>
    decreases s.len() - i,
{
    if 0 <= i < s.len() && is_digit(s[i]) {
        let acc2 = acc * 10 + digit_val(s[i]);
        if acc2 > i64::MAX {
            Option::None
        } else {
            scan_int(s, i + 1, acc2)
        }
    } else {
        Option::Some((acc, i))
    }
}

/// Fold fraction digits from position `i`: each digit extends the numerator
/// and scales the denominator by ten; fails where either would leave the
/// signed 64-bit range.  Yields numerator, denominator and the position
/// after the digits.
pub open spec fn scan_frac(s: Seq<char>, i: int, num: int, den: int) -> Option<(int, int, int)>
    decreases s.len() - i,
{
    if 0 <= i < s.len() && is_digit(s[i]) {
        let num2 = num * 10 + digit_val(s[i]);
        let den2 = den * 10;
        if num2 > i64::MAX || den2 > i64::MAX {
            Option::None
        } else {
            scan_frac(s, i + 1, num2, den2)
        }
    } else {
        Option::Some((num, den, i))
    }
}

/// The token starting with a digit at position `i`: an integer part,
/// optionally followed by `.` and a fraction.  Yields the literal's value
/// and the position after it.
pub open spec fn scan_number(s: Seq<char>, i: int) -> Option<(int, int, int)> {
    match scan_int(s, i, 0) {
        Option::None => Option::None,
        Option::Some((n, j)) => {
            if j < s.len() && s[j] == '.' {
                scan_frac(s, j + 1, n, 1)
            } else {
                Option::Some((n, 1, j))
            }
        },
    }
}

/// The token model of an identifier word: the keywords `if`, `else` and
/// `min` have tokens of their own.
pub open spec fn word_token(word: Seq<char>) -> TokenModel {
    if word =~= seq!['i', 'f'] {
        TokenModel::KwIf
    } else if word =~= seq!['e', 'l', 's', 'e'] {
        TokenModel::KwElse
    } else if word =~= seq!['m', 'i', 'n'] {
        TokenModel::KwMin
    } else {
        TokenModel::Ident(word)
    }
}

/// The tokens of `s` from position `i` on, or nothing where a character
/// fits no token or a literal leaves the representable range.
pub open spec fn spec_tokenize(s: Seq<char>, i: int) -> Option<Seq<TokenModel>>
    decreases s.len() - i, 0int,
{
    if i < 0 || i >= s.len() {
        Option::Some(Seq::empty())
    } else if is_space(s[i]) {
        spec_tokenize(s, i + 1)
    } else if is_digit(s[i]) {
        match scan_number(s, i) {
            Option::None => Option::None,
            Option::Some((num, den, j)) => {
                if j <= i || j > s.len() {
                    Option::None
                } else {
                    spec_tokenize_cons(s, j, TokenModel::Number { num, den })
                }
            },
        }
    } else if is_ident_char(s[i]) {
        let j = ident_end(s, i);
        if j <= i || j > s.len() {
            Option::None
        } else {
            spec_tokenize_cons(s, j, word_token(s.subrange(i, j)))
        }
    } else if s[i] == '+' {
        spec_tokenize_cons(s, i + 1, TokenModel::Plus)
    } else if s[i] == '-' {
        spec_tokenize_cons(s, i + 1, TokenModel::Minus)
    } else if s[i] == '*' {
        spec_tokenize_cons(s, i + 1, TokenModel::Star)
    } else if s[i] == '/' {
        spec_tokenize_cons(s, i + 1, TokenModel::Slash)
    } else if s[i] == ',' {
        spec_tokenize_cons(s, i + 1, TokenModel::Comma)
    } else if s[i] == '(' {
        spec_tokenize_cons(s, i + 1, TokenModel::LParen)
    } else if s[i] == ')' {
        spec_tokenize_cons(s, i + 1, TokenModel::RParen)
    } else {
        Option::None
    }
}

/// One token followed by the tokens from position `j` on.
pub open spec fn spec_tokenize_cons(s: Seq<char>, j: int, t: TokenModel) -> Option<
    Seq<TokenModel>,
>
    decreases s.len() - j, 1int,
{
    if j < 0 || j > s.len() {
        Option::None
    } else {
        match spec_tokenize(s, j) {
            Option::None => Option::None,
            Option::Some(rest) => Option::Some(seq![t] + rest),
        }
    }
}

/// `ident_end` never moves backwards and stays within the text.
proof fn lemma_ident_end_bounds(s: Seq<char>, i: int)
    requires
        0 <= i <= s.len(),
    ensures
        i <= ident_end(s, i) <= s.len(),
    decreases s.len() - i,
{
    if i < s.len() && is_ident_char(s[i]) {
        lemma_ident_end_bounds(s, i + 1);
    }
}

/// A successful digit fold ends at or after where it started, within the
/// text.
proof fn lemma_scan_int_bounds(s: Seq<char>, i: int, acc: int)
    requires
        0 <= i <= s.len(),
    ensures
        scan_int(s, i, acc) matches Option::Some((v, j)) ==> i <= j <= s.len(),
    decreases s.len() - i,
{
    if i < s.len() && is_digit(s[i]) {
        let acc2 = acc * 10 + digit_val(s[i]);
        if acc2 <= i64::MAX {
            lemma_scan_int_bounds(s, i + 1, acc2);
        }
    }
}

/// A successful fraction fold ends at or after where it started, within the
/// text.
proof fn lemma_scan_frac_bounds(s: Seq<char>, i: int, num: int, den: int)
    requires
        0 <= i <= s.len(),
    ensures
        scan_frac(s, i, num, den) matches Option::Some((n2, d2, j)) ==> i <= j <= s.len(),
    decreases s.len() - i,
{
    if i < s.len() && is_digit(s[i]) {
        let num2 = num * 10 + digit_val(s[i]);
        if num2 <= i64::MAX && den * 10 <= i64::MAX {
            lemma_scan_frac_bounds(s, i + 1, num2, den * 10);
        }
    }
}

/// Whether `c` is a decimal digit.
fn is_digit_exec(c: char) -> (r: bool)
    ensures
        r == is_digit(c),
{
    '0' <= c && c <= '9'
}

/// Whether `c` may appear in an identifier.
fn is_ident_char_exec(c: char) -> (r: bool)
    ensures
        r == is_ident_char(c),
{
    ('a' <= c && c <= 'z') || ('A' <= c && c <= 'Z') || ('0' <= c && c <= '9') || c == '.' || c
        == '_' || c == '#'
}

/// The first position at or after `i` without an identifier character.
fn ident_end_exec(s: &str, i: usize, n: usize) -> (j: usize)
    requires
        n == s@.len(),
        i < n,
        is_ident_char(s@[i as int]),
    ensures
        j == ident_end(s@, i as int),
        i < j <= n,
{
    let mut j: usize = i;
    while j < n && is_ident_char_exec(s.get_char(j))
        invariant
            i <= j <= n,
            n == s@.len(),
            ident_end(s@, i as int) == ident_end(s@, j as int),
        decreases n - j,
    {
        j += 1;
    }
    proof {
        assert(ident_end(s@, j as int) == j);
        assert(ident_end(s@, i as int) == ident_end(s@, i + 1));
        lemma_ident_end_bounds(s@, i + 1);
    }
    j
}

/// The value of a digit character.
fn digit_val_exec(c: char) -> (d: i64)
    requires
        is_digit(c),
    ensures
        d == digit_val(c),
        0 <= d <= 9,
{
    ((c as u32) - ('0' as u32)) as i64
}

/// Scan the numeric literal starting with the digit at position `i`.
fn scan_number_exec(s: &str, i: usize, n: usize) -> (r: Option<(Rational, usize)>)
    requires
        n == s@.len(),
        i < n,
        is_digit(s@[i as int]),
    ensures
        match r {
            Option::Some((q, j)) => {
                &&& scan_number(s@, i as int) == Option::Some((q.num as int, q.den as int, j as int))
                &&& i < j <= n
                &&& q.wf()
            },
            Option::None => scan_number(s@, i as int) is None,
        },
{
    let mut acc: i64 = 0;
    let mut j: usize = i;
    while j < n && is_digit_exec(s.get_char(j))
        invariant
            i <= j <= n,
            n == s@.len(),
            acc >= 0,
            scan_int(s@, i as int, 0) == scan_int(s@, j as int, acc as int),
        decreases n - j,
    {
        let d = digit_val_exec(s.get_char(j));
        let m = match acc.checked_mul(10) {
            Some(m) => m,
            None => {
                return None;
            },
        };
        let a2 = match m.checked_add(d) {
            Some(a2) => a2,
            None => {
                return None;
            },
        };
        acc = a2;
        j += 1;
    }
    proof {
        assert(scan_int(s@, j as int, acc as int) == Option::Some((acc as int, j as int)));
        lemma_scan_int_bounds(s@, i as int, 0);
        assert(scan_int(s@, i as int, 0) == scan_int(s@, i + 1, digit_val(s@[i as int])));
    }
    if j < n && s.get_char(j) == '.' {
        let mut num: i64 = acc;
        let mut den: i64 = 1;
        let mut k: usize = j + 1;
        while k < n && is_digit_exec(s.get_char(k))
            invariant
                i < j + 1 <= k <= n,
                n == s@.len(),
                num >= 0,
                den >= 1,
                is_digit(s@[i as int]),
                j < n,
                s@[j as int] == '.',
                scan_int(s@, i as int, 0) == Option::Some((acc as int, j as int)),
                scan_frac(s@, j + 1, acc as int, 1) == scan_frac(s@, k as int, num as int, den as int),
            decreases n - k,
        {
            let d = digit_val_exec(s.get_char(k));
            let m = match num.checked_mul(10) {
                Some(m) => m,
                None => {
                    return None;
                },
            };
            let n2 = match m.checked_add(d) {
                Some(n2) => n2,
                None => {
                    return None;
                },
            };
            let d2 = match den.checked_mul(10) {
                Some(d2) => d2,
                None => {
                    return None;
                },
            };
            num = n2;
            den = d2;
            k += 1;
        }
        proof {
            assert(scan_frac(s@, k as int, num as int, den as int) == Option::Some(
                (num as int, den as int, k as int),
            ));
        }
        Some((Rational { num, den }, k))
    } else {
        Some((Rational { num: acc, den: 1 }, j))
    }
}

/// Split a formula into tokens, or report nothing where a character fits no
/// token or a literal leaves the representable range.
fn tokenize(s: &str) -> (r: Option<Vec<Token>>)
    ensures
        match r {
            Option::Some(v) => spec_tokenize(s@, 0) == Option::Some(tokens_model(v@)),
            Option::None => spec_tokenize(s@, 0) is None,
        },
{
    let n: usize = s.unicode_len();
    let mut out: Vec<Token> = Vec::new();
    let mut i: usize = 0;
    proof {
        assert(tokens_model(out@) =~= Seq::<TokenModel>::empty());
    }
    while i < n
        invariant
            i <= n,
            n == s@.len(),
            spec_tokenize(s@, 0) == match spec_tokenize(s@, i as int) {
                Option::None => Option::<Seq<TokenModel>>::None,
                Option::Some(rest) => Option::Some(tokens_model(out@) + rest),
            },
        decreases n - i,
    {
        let ghost prefix = tokens_model(out@);
        let ghost out_before = out@;
        let c = s.get_char(i);
        if c == ' ' || c == '\t' || c == '\n' || c == '\r' {
            i += 1;
        } else if '0' <= c && c <= '9' {
            match scan_number_exec(s, i, n) {
                Some((q, j)) => {
                    out.push(Token::Number(q));
                    proof {
                        lemma_tokens_model_push(out_before, Token::Number(q));
                        lemma_cons_assoc(
                            prefix,
                            TokenModel::Number { num: q.num as int, den: q.den as int },
                            s@,
                            j as int,
                        );
                    }
                    i = j;
                },
                None => {
                    return None;
                },
            }
        } else if is_ident_char_exec(c) {
            let j = ident_end_exec(s, i, n);
            let ghost word = s@.subrange(i as int, j as int);
            let wlen = j - i;
            let tok: Token;
            if wlen == 2 && s.get_char(i) == 'i' && s.get_char(i + 1) == 'f' {
                tok = Token::KwIf;
                proof {
                    assert(word =~= seq!['i', 'f']);
                }
            } else if wlen == 4 && s.get_char(i) == 'e' && s.get_char(i + 1) == 'l' && s.get_char(
                i + 2,
            ) == 's' && s.get_char(i + 3) == 'e' {
                tok = Token::KwElse;
                proof {
                    assert(!(word =~= seq!['i', 'f']));
                    assert(word =~= seq!['e', 'l', 's', 'e']);
                }
            } else if wlen == 3 && s.get_char(i) == 'm' && s.get_char(i + 1) == 'i' && s.get_char(
                i + 2,
            ) == 'n' {
                tok = Token::KwMin;
                proof {
                    assert(!(word =~= seq!['i', 'f']));
                    assert(!(word =~= seq!['e', 'l', 's', 'e']));
                    assert(word =~= seq!['m', 'i', 'n']);
                }
            } else {
                tok = Token::Ident(String::from_str(s.substring_char(i, j)));
                proof {
                    assert(!(word =~= seq!['i', 'f']));
                    assert(!(word =~= seq!['e', 'l', 's', 'e']));
                    assert(!(word =~= seq!['m', 'i', 'n']));
                }
            }
            proof {
                assert(tok@ == word_token(word));
            }
            out.push(tok);
            proof {
                lemma_tokens_model_push(out_before, tok);
                lemma_cons_assoc(prefix, word_token(word), s@, j as int);
            }
            i = j;
        } else if c == '+' {
            out.push(Token::Plus);
            proof {
                lemma_tokens_model_push(out_before, Token::Plus);
                lemma_cons_assoc(prefix, TokenModel::Plus, s@, i + 1);
            }
            i += 1;
        } else if c == '-' {
            out.push(Token::Minus);
            proof {
                lemma_tokens_model_push(out_before, Token::Minus);
                lemma_cons_assoc(prefix, TokenModel::Minus, s@, i + 1);
            }
            i += 1;
        } else if c == '*' {
            out.push(Token::Star);
            proof {
                lemma_tokens_model_push(out_before, Token::Star);
                lemma_cons_assoc(prefix, TokenModel::Star, s@, i + 1);
            }
            i += 1;
        } else if c == '/' {
            out.push(Token::Slash);
            proof {
                lemma_tokens_model_push(out_before, Token::Slash);
                lemma_cons_assoc(prefix, TokenModel::Slash, s@, i + 1);
            }
            i += 1;
        } else if c == ',' {
            out.push(Token::Comma);
            proof {
                lemma_tokens_model_push(out_before, Token::Comma);
                lemma_cons_assoc(prefix, TokenModel::Comma, s@, i + 1);
            }
            i += 1;
        } else if c == '(' {
            out.push(Token::LParen);
            proof {
                lemma_tokens_model_push(out_before, Token::LParen);
                lemma_cons_assoc(prefix, TokenModel::LParen, s@, i + 1);
            }
            i += 1;
        } else if c == ')' {
            out.push(Token::RParen);
            proof {
                lemma_tokens_model_push(out_before, Token::RParen);
                lemma_cons_assoc(prefix, TokenModel::RParen, s@, i + 1);
            }
            i += 1;
        } else {
            return None;
        }
    }
    proof {
        assert(spec_tokenize(s@, n as int) == Option::Some(Seq::<TokenModel>::empty()));
        assert(tokens_model(out@) + Seq::<TokenModel>::empty() =~= tokens_model(out@));
    }
    Some(out)
}

/// Pushing a token extends the model sequence by the token's model.
proof fn lemma_tokens_model_push(before: Seq<Token>, t: Token)
    ensures
        tokens_model(before.push(t)) =~= tokens_model(before) + seq![t@],
{
    assert forall|k: int| 0 <= k < before.len() + 1 implies tokens_model(before.push(t))[k] == (
    tokens_model(before) + seq![t@])[k] by {
        if k < before.len() {
            assert(before.push(t)[k] == before[k]);
        }
    }
}

/// Prepending one token to the remainder associates with an already-built
/// prefix.
proof fn lemma_cons_assoc(prefix: Seq<TokenModel>, t: TokenModel, s: Seq<char>, j: int)
    ensures
        match spec_tokenize_cons(s, j, t) {
            Option::None => true,
            Option::Some(whole) => prefix + whole =~= (prefix + seq![t]) + (
            spec_tokenize(s, j)->Some_0),
        },
{
}

/// Parse a primary term at token position `i`: a literal, an event name, a
/// parenthesised expression, or `min(...)` over an argument list.
pub open spec fn sp_primary(ts: Seq<TokenModel>, i: int) -> Option<(ExprModel, int)>
    decreases ts.len() - i, 0int,
{
    if i < 0 || i >= ts.len() {
        Option::None
    } else {
        match ts[i] {
            TokenModel::Number { num, den } => Option::Some((ExprModel::Num { num, den }, i + 1)),
            TokenModel::Ident(nm) => Option::Some((ExprModel::Var(nm), i + 1)),
            TokenModel::LParen => match sp_expr(ts, i + 1) {
                Option::None => Option::None,
                Option::Some((e, j)) => {
                    if j < ts.len() && ts[j] is RParen {
                        Option::Some((e, j + 1))
                    } else {
                        Option::None
                    }
                },
            },
            TokenModel::KwMin => {
                if i + 1 < ts.len() && ts[i + 1] is LParen {
                    match sp_args(ts, i + 2) {
                        Option::None => Option::None,
                        Option::Some((e, j)) => {
                            if j < ts.len() && ts[j] is RParen {
                                Option::Some((ExprModel::Min(Box::new(e)), j + 1))
                            } else {
                                Option::None
                            }
                        },
                    }
                } else {
                    Option::None
                }
            },
            _ => Option::None,
        }
    }
}

/// Parse a product at token position `i`: primaries joined by `*` and `/`,
/// left-associatively.
pub open spec fn sp_term(ts: Seq<TokenModel>, i: int) -> Option<(ExprModel, int)>
    decreases ts.len() - i, 1int,
{
    if i < 0 || i > ts.len() {
        Option::None
    } else {
        match sp_primary(ts, i) {
            Option::None => Option::None,
            Option::Some((e, j)) => {
                if j <= i || j > ts.len() {
                    Option::None
                } else {
                    sp_term_tail(ts, j, e)
                }
            },
        }
    }
}

/// Fold further `*`/`/` operands onto an already-parsed product.
pub open spec fn sp_term_tail(ts: Seq<TokenModel>, i: int, acc: ExprModel) -> Option<
    (ExprModel, int),
>
    decreases ts.len() - i, 0int,
{
    if i < 0 || i > ts.len() {
        Option::None
    } else if i < ts.len() && (ts[i] is Star || ts[i] is Slash) {
        match sp_primary(ts, i + 1) {
            Option::None => Option::None,
            Option::Some((e2, k)) => {
                if k <= i || k > ts.len() {
                    Option::None
                } else if ts[i] is Star {
                    sp_term_tail(ts, k, ExprModel::Mul(Box::new(acc), Box::new(e2)))
                } else {
                    sp_term_tail(ts, k, ExprModel::Div(Box::new(acc), Box::new(e2)))
                }
            },
        }
    } else {
        Option::Some((acc, i))
    }
}

/// Parse a sum at token position `i`: products joined by `+` and `-`,
/// left-associatively.
pub open spec fn sp_sum(ts: Seq<TokenModel>, i: int) -> Option<(ExprModel, int)>
    decreases ts.len() - i, 2int,
{
    if i < 0 || i > ts.len() {
        Option::None
    } else {
        match sp_term(ts, i) {
            Option::None => Option::None,
            Option::Some((e, j)) => {
                if j <= i || j > ts.len() {
                    Option::None
                } else {
                    sp_sum_tail(ts, j, e)
                }
            },
        }
    }
}

/// Fold further `+`/`-` operands onto an already-parsed sum.
pub open spec fn sp_sum_tail(ts: Seq<TokenModel>, i: int, acc: ExprModel) -> Option<
    (ExprModel, int),
>
    decreases ts.len() - i, 0int,
{
    if i < 0 || i > ts.len() {
        Option::None
    } else if i < ts.len() && (ts[i] is Plus || ts[i] is Minus) {
        match sp_term(ts, i + 1) {
            Option::None => Option::None,
            Option::Some((e2, k)) => {
                if k <= i || k > ts.len() {
                    Option::None
                } else if ts[i] is Plus {
                    sp_sum_tail(ts, k, ExprModel::Add(Box::new(acc), Box::new(e2)))
                } else {
                    sp_sum_tail(ts, k, ExprModel::Sub(Box::new(acc), Box::new(e2)))
                }
            },
        }
    } else {
        Option::Some((acc, i))
    }
}

/// Parse a full expression at token position `i`: a sum, optionally
/// followed by `if condition else alternative`.
pub open spec fn sp_expr(ts: Seq<TokenModel>, i: int) -> Option<(ExprModel, int)>
    decreases ts.len() - i, 3int,
{
    if i < 0 || i > ts.len() {
        Option::None
    } else {
        match sp_sum(ts, i) {
            Option::None => Option::None,
            Option::Some((v, j)) => {
                if j <= i || j > ts.len() {
                    Option::None
                } else if j < ts.len() && ts[j] is KwIf {
                    match sp_sum(ts, j + 1) {
                        Option::None => Option::None,
                        Option::Some((c, k)) => {
                            if k <= j || k > ts.len() {
                                Option::None
                            } else if k < ts.len() && ts[k] is KwElse {
                                match sp_expr(ts, k + 1) {
                                    Option::None => Option::None,
                                    Option::Some((e, m)) => Option::Some(
                                        (
                                            ExprModel::If(
                                                Box::new(c),
                                                Box::new(v),
                                                Box::new(e),
                                            ),
                                            m,
                                        ),
                                    ),
                                }
                            } else {
                                Option::None
                            }
                        },
                    }
                } else {
                    Option::Some((v, j))
                }
            },
        }
    }
}

/// Parse a `min` argument list at token position `i`: expressions joined by
/// commas, left-associatively.
pub open spec fn sp_args(ts: Seq<TokenModel>, i: int) -> Option<(ExprModel, int)>
    decreases ts.len() - i, 4int,
{
    if i < 0 || i > ts.len() {
        Option::None
    } else {
        match sp_expr(ts, i) {
            Option::None => Option::None,
            Option::Some((e, j)) => {
                if j <= i || j > ts.len() {
                    Option::None
                } else {
                    sp_args_tail(ts, j, e)
                }
            },
        }
    }
}

/// Fold further comma-joined arguments onto an already-parsed list.
pub open spec fn sp_args_tail(ts: Seq<TokenModel>, i: int, acc: ExprModel) -> Option<
    (ExprModel, int),
>
    decreases ts.len() - i, 0int,
{
    if i < 0 || i > ts.len() {
        Option::None
    } else if i < ts.len() && ts[i] is Comma {
        match sp_expr(ts, i + 1) {
            Option::None => Option::None,
            Option::Some((e2, k)) => {
                if k <= i || k > ts.len() {
                    Option::None
                } else {
                    sp_args_tail(ts, k, ExprModel::Comma(Box::new(acc), Box::new(e2)))
                }
            },
        }
    } else {
        Option::Some((acc, i))
    }
}

/// Parse a whole token sequence as one expression; every token must be
/// consumed.
pub open spec fn spec_parse_tokens(ts: Seq<TokenModel>) -> Option<ExprModel> {
    match sp_expr(ts, 0) {
        Option::None => Option::None,
        Option::Some((e, j)) => {
            if j == ts.len() {
                Option::Some(e)
            } else {
                Option::None
            }
        },
    }
}

/// The expression a formula text denotes: its tokens parsed as one
/// expression, or nothing where tokenising or parsing fails.
pub open spec fn spec_parse(s: Seq<char>) -> Option<ExprModel> {
    match spec_tokenize(s, 0) {
        Option::None => Option::None,
        Option::Some(ts) => spec_parse_tokens(ts),
    }
}

/// Whether `t` is a closing parenthesis.
fn is_rparen(t: &Token) -> (r: bool)
    ensures
        r == (t@ is RParen),
{
    match t {
        Token::RParen => true,
        _ => false,
    }
}

/// Whether `t` is an opening parenthesis.
fn is_lparen(t: &Token) -> (r: bool)
    ensures
        r == (t@ is LParen),
{
    match t {
        Token::LParen => true,
        _ => false,
    }
}

/// Parse a primary term.
fn p_primary(ts: &Vec<Token>, i: usize) -> (r: Option<(MetricExpr, usize)>)
    requires
        i <= ts@.len(),
    ensures
        match r {
            Option::Some((e, j)) => sp_primary(tokens_model(ts@), i as int) == Option::Some(
                (e@, j as int),
            ) && i < j <= ts@.len(),
            Option::None => sp_primary(tokens_model(ts@), i as int) is None,
        },
    decreases ts@.len() - i, 0int,
{
    if i >= ts.len() {
        return None;
    }
    proof {
        assert(tokens_model(ts@)[i as int] == ts@[i as int]@);
    }
    match &ts[i] {
        Token::Number(q) => Some((MetricExpr::Num(*q), i + 1)),
        Token::Ident(nm) => Some((MetricExpr::Var(nm.clone()), i + 1)),
        Token::LParen => {
            match p_expr(ts, i + 1) {
                None => None,
                Some((e, j)) => {
                    if j < ts.len() && is_rparen(&ts[j]) {
                        proof {
                            assert(tokens_model(ts@)[j as int] == ts@[j as int]@);
                        }
                        Some((e, j + 1))
                    } else {
                        proof {
                            if j < ts@.len() {
                                assert(tokens_model(ts@)[j as int] == ts@[j as int]@);
                            }
                        }
                        None
                    }
                },
            }
        },
        Token::KwMin => {
            if i + 1 < ts.len() && is_lparen(&ts[i + 1]) {
                proof {
                    assert(tokens_model(ts@)[i + 1] == ts@[i + 1]@);
                }
                match p_args(ts, i + 2) {
                    None => None,
                    Some((e, j)) => {
                        if j < ts.len() && is_rparen(&ts[j]) {
                            proof {
                                assert(tokens_model(ts@)[j as int] == ts@[j as int]@);
                            }
                            Some((MetricExpr::Min(Box::new(e)), j + 1))
                        } else {
                            proof {
                                if j < ts@.len() {
                                    assert(tokens_model(ts@)[j as int] == ts@[j as int]@);
                                }
                            }
                            None
                        }
                    },
                }
            } else {
                proof {
                    if i + 1 < ts@.len() {
                        assert(tokens_model(ts@)[i + 1] == ts@[i + 1]@);
                    }
                }
                None
            }
        },
        _ => None,
    }
}

/// Parse a product.
fn p_term(ts: &Vec<Token>, i: usize) -> (r: Option<(MetricExpr, usize)>)
    requires
        i <= ts@.len(),
    ensures
        match r {
            Option::Some((e, j)) => sp_term(tokens_model(ts@), i as int) == Option::Some(
                (e@, j as int),
            ) && i < j <= ts@.len(),
            Option::None => sp_term(tokens_model(ts@), i as int) is None,
        },
    decreases ts@.len() - i, 1int,
{
    match p_primary(ts, i) {
        None => None,
        Some((e, j)) => p_term_tail(ts, j, e),
    }
}

/// Fold further `*`/`/` operands onto `acc`.
fn p_term_tail(ts: &Vec<Token>, i: usize, acc: MetricExpr) -> (r: Option<(MetricExpr, usize)>)
    requires
        i <= ts@.len(),
    ensures
        match r {
            Option::Some((e, j)) => sp_term_tail(tokens_model(ts@), i as int, acc@)
                == Option::Some((e@, j as int)) && i <= j <= ts@.len(),
            Option::None => sp_term_tail(tokens_model(ts@), i as int, acc@) is None,
        },
    decreases ts@.len() - i, 0int,
{
    if i < ts.len() {
        proof {
            assert(tokens_model(ts@)[i as int] == ts@[i as int]@);
        }
        let is_star = match &ts[i] {
            Token::Star => true,
            _ => false,
        };
        let is_slash = match &ts[i] {
            Token::Slash => true,
            _ => false,
        };
        if is_star || is_slash {
            match p_primary(ts, i + 1) {
                None => None,
                Some((e2, k)) => {
                    if is_star {
                        p_term_tail(ts, k, MetricExpr::Mul(Box::new(acc), Box::new(e2)))
                    } else {
                        p_term_tail(ts, k, MetricExpr::Div(Box::new(acc), Box::new(e2)))
                    }
                },
            }
        } else {
            Some((acc, i))
        }
    } else {
        Some((acc, i))
    }
}

/// Parse a sum.
fn p_sum(ts: &Vec<Token>, i: usize) -> (r: Option<(MetricExpr, usize)>)
    requires
        i <= ts@.len(),
    ensures
        match r {
            Option::Some((e, j)) => sp_sum(tokens_model(ts@), i as int) == Option::Some(
                (e@, j as int),
            ) && i < j <= ts@.len(),
            Option::None => sp_sum(tokens_model(ts@), i as int) is None,
        },
    decreases ts@.len() - i, 2int,
{
    match p_term(ts, i) {
        None => None,
        Some((e, j)) => p_sum_tail(ts, j, e),
    }
}

/// Fold further `+`/`-` operands onto `acc`.
fn p_sum_tail(ts: &Vec<Token>, i: usize, acc: MetricExpr) -> (r: Option<(MetricExpr, usize)>)
    requires
        i <= ts@.len(),
    ensures
        match r {
            Option::Some((e, j)) => sp_sum_tail(tokens_model(ts@), i as int, acc@) == Option::Some(
                (e@, j as int),
            ) && i <= j <= ts@.len(),
            Option::None => sp_sum_tail(tokens_model(ts@), i as int, acc@) is None,
        },
    decreases ts@.len() - i, 0int,
{
    if i < ts.len() {
        proof {
            assert(tokens_model(ts@)[i as int] == ts@[i as int]@);
        }
        let is_plus = match &ts[i] {
            Token::Plus => true,
            _ => false,
        };
        let is_minus = match &ts[i] {
            Token::Minus => true,
            _ => false,
        };
        if is_plus || is_minus {
            match p_term(ts, i + 1) {
                None => None,
                Some((e2, k)) => {
                    if is_plus {
                        p_sum_tail(ts, k, MetricExpr::Add(Box::new(acc), Box::new(e2)))
                    } else {
                        p_sum_tail(ts, k, MetricExpr::Sub(Box::new(acc), Box::new(e2)))
                    }
                },
            }
        } else {
            Some((acc, i))
        }
    } else {
        Some((acc, i))
    }
}

/// Parse a full expression, with its optional trailing conditional.
fn p_expr(ts: &Vec<Token>, i: usize) -> (r: Option<(MetricExpr, usize)>)
    requires
        i <= ts@.len(),
    ensures
        match r {
            Option::Some((e, j)) => sp_expr(tokens_model(ts@), i as int) == Option::Some(
                (e@, j as int),
            ) && i < j <= ts@.len(),
            Option::None => sp_expr(tokens_model(ts@), i as int) is None,
        },
    decreases ts@.len() - i, 3int,
{
    match p_sum(ts, i) {
        None => None,
        Some((v, j)) => {
            let has_if = j < ts.len() && match &ts[j] {
                Token::KwIf => true,
                _ => false,
            };
            proof {
                if j < ts@.len() {
                    assert(tokens_model(ts@)[j as int] == ts@[j as int]@);
                }
            }
            if has_if {
                match p_sum(ts, j + 1) {
                    None => None,
                    Some((c, k)) => {
                        let has_else = k < ts.len() && match &ts[k] {
                            Token::KwElse => true,
                            _ => false,
                        };
                        proof {
                            if k < ts@.len() {
                                assert(tokens_model(ts@)[k as int] == ts@[k as int]@);
                            }
                        }
                        if has_else {
                            match p_expr(ts, k + 1) {
                                None => None,
                                Some((e, m)) => Some(
                                    (
                                        MetricExpr::If(
                                            Box::new(c),
                                            Box::new(v),
                                            Box::new(e),
                                        ),
                                        m,
                                    ),
                                ),
                            }
                        } else {
                            None
                        }
                    },
                }
            } else {
                Some((v, j))
            }
        },
    }
}

/// Parse a `min` argument list.
fn p_args(ts: &Vec<Token>, i: usize) -> (r: Option<(MetricExpr, usize)>)
    requires
        i <= ts@.len(),
    ensures
        match r {
            Option::Some((e, j)) => sp_args(tokens_model(ts@), i as int) == Option::Some(
                (e@, j as int),
            ) && i < j <= ts@.len(),
            Option::None => sp_args(tokens_model(ts@), i as int) is None,
        },
    decreases ts@.len() - i, 4int,
{
    match p_expr(ts, i) {
        None => None,
        Some((e, j)) => p_args_tail(ts, j, e),
    }
}

/// Fold further comma-joined arguments onto `acc`.
fn p_args_tail(ts: &Vec<Token>, i: usize, acc: MetricExpr) -> (r: Option<(MetricExpr, usize)>)
    requires
        i <= ts@.len(),
    ensures
        match r {
            Option::Some((e, j)) => sp_args_tail(tokens_model(ts@), i as int, acc@)
                == Option::Some((e@, j as int)) && i <= j <= ts@.len(),
            Option::None => sp_args_tail(tokens_model(ts@), i as int, acc@) is None,
        },
    decreases ts@.len() - i, 0int,
{
    if i < ts.len() {
        proof {
            assert(tokens_model(ts@)[i as int] == ts@[i as int]@);
        }
        let is_comma = match &ts[i] {
            Token::Comma => true,
            _ => false,
        };
        if is_comma {
            match p_expr(ts, i + 1) {
                None => None,
                Some((e2, k)) => p_args_tail(ts, k, MetricExpr::Comma(Box::new(acc), Box::new(e2))),
            }
        } else {
            Some((acc, i))
        }
    } else {
        Some((acc, i))
    }
}

/// The names of the event leaves of an expression, in leaf order and with
/// duplicates kept.
pub open spec fn spec_counters(m: ExprModel) -> Seq<Seq<char>>
    decreases m,
{
    match m {
        ExprModel::Num { .. } => Seq::empty(),
        ExprModel::Var(nm) => seq![nm],
        ExprModel::Add(a, b) => spec_counters(*a) + spec_counters(*b),
        ExprModel::Sub(a, b) => spec_counters(*a) + spec_counters(*b),
        ExprModel::Mul(a, b) => spec_counters(*a) + spec_counters(*b),
        ExprModel::Div(a, b) => spec_counters(*a) + spec_counters(*b),
        ExprModel::If(c, t, e) => spec_counters(*c) + spec_counters(*t) + spec_counters(*e),
        ExprModel::Min(a) => spec_counters(*a),
        ExprModel::Comma(a, b) => spec_counters(*a) + spec_counters(*b),
    }
}

/// The set of distinct events an expression depends on: the surrounding
/// system schedules exactly these before the metric can be computed.
pub open spec fn spec_dependencies(m: ExprModel) -> Set<Seq<char>> {
    spec_counters(m).to_set()
}

/// The models of a name vector.
pub open spec fn names_model(ns: Seq<String>) -> Seq<Seq<char>> {
    ns.map_values(|s: String| s@)
}

/// Concatenating name vectors concatenates their models.
proof fn lemma_names_model_concat(a: Seq<String>, b: Seq<String>)
    ensures
        names_model(a + b) =~= names_model(a) + names_model(b),
{
    assert forall|k: int| 0 <= k < a.len() + b.len() implies names_model(a + b)[k] == (
    names_model(a) + names_model(b))[k] by {
        if k < a.len() {
            assert((a + b)[k] == a[k]);
        } else {
            assert((a + b)[k] == b[k - a.len()]);
        }
    }
}

/// An association of event names with their (scaled) values, used as the
/// lookup that metric evaluation resolves names against.
#[derive(Debug)]
pub struct EventValues {
    /// Name-value pairs; a lookup takes the first pair with the sought name.
    entries: Vec<(String, Rational)>,
}

impl View for EventValues {
    type V = Seq<(Seq<char>, (int, int))>;

    closed spec fn view(&self) -> Seq<(Seq<char>, (int, int))> {
        self.entries@.map_values(
            |p: (String, Rational)| (p.0@, (p.1.num as int, p.1.den as int)),
        )
    }
}

/// The value of the first entry named `name`, if any.
pub open spec fn spec_find(env: Seq<(Seq<char>, (int, int))>, name: Seq<char>) -> Option<
    (int, int),
>
    decreases env.len(),
{
    if env.len() == 0 {
        Option::None
    } else if env[0].0 == name {
        Option::Some(env[0].1)
    } else {
        spec_find(env.drop_first(), name)
    }
}

impl EventValues {
    /// Well-formedness: every stored value has a positive denominator.
    pub open spec fn wf(&self) -> bool {
        forall|k: int| 0 <= k < self@.len() ==> (#[trigger] self@[k]).1.1 > 0
    }

    /// An empty lookup.
    pub fn new() -> (r: EventValues)
        ensures
            r@ =~= Seq::<(Seq<char>, (int, int))>::empty(),
            r.wf(),
    {
        EventValues { entries: Vec::new() }
    }

    /// Record `value` for `name`; an earlier entry of the same name keeps
    /// priority.
    pub fn insert(&mut self, name: &str, value: Rational)
        requires
            old(self).wf(),
            value.wf(),
        ensures
            final(self)@ =~= old(self)@.push((name@, (value.num as int, value.den as int))),
            final(self).wf(),
    {
        let ghost before = self.entries@;
        self.entries.push((String::from_str(name), value));
        proof {
            assert forall|k: int| 0 <= k < self.entries@.len() implies (#[trigger] self@[k]) == (
            before.map_values(
                |p: (String, Rational)| (p.0@, (p.1.num as int, p.1.den as int)),
            ).push((name@, (value.num as int, value.den as int))))[k] by {
                if k < before.len() {
                    assert(self.entries@[k] == before[k]);
                }
            }
        }
    }

    /// Look up the value recorded for `name`.
    fn find(&self, name: &String) -> (r: Option<Rational>)
        requires
            self.wf(),
        ensures
            match r {
                Option::Some(v) => spec_find(self@, name@) == Option::Some(
                    (v.num as int, v.den as int),
                ) && v.wf(),
                Option::None => spec_find(self@, name@) is None,
            },
    {
        let mut k: usize = 0;
        let n = self.entries.len();
        proof {
            assert(self@.skip(0) =~= self@);
        }
        while k < n
            invariant
                self.wf(),
                k <= n,
                n == self.entries@.len(),
                n == self@.len(),
                spec_find(self@, name@) == spec_find(self@.skip(k as int), name@),
            decreases n - k,
        {
            proof {
                assert(self@[k as int] == (
                    self.entries@[k as int].0@,
                    (self.entries@[k as int].1.num as int, self.entries@[k as int].1.den as int),
                ));
                assert(self@.skip(k as int)[0] == self@[k as int]);
            }
            if self.entries[k].0 == *name {
                return Some(self.entries[k].1);
            }
            proof {
                assert(self@.skip(k as int).drop_first() =~= self@.skip(k as int + 1));
            }
            k += 1;
        }
        proof {
            assert(self@.skip(n as int).len() == 0);
        }
        None
    }
}

/// The outcome of evaluating an expression against a lookup.
pub enum EvalOutcome {
    /// The exact rational value `num / den`.
    Value {
        /// Numerator.
        num: int,
        /// Denominator.
        den: int,
    },
    /// A division had a zero denominator.
    DivZero,
    /// The named event was absent from the lookup.
    Missing(Seq<char>),
    /// An intermediate value left the signed 64-bit range.
    Overflow,
    /// The expression held a shape only the parser may build internally: a
    /// comma outside a `min` argument list, or a constant with a
    /// non-positive denominator.
    Malformed,
}

/// Whether `x` lies in the signed 64-bit range.
pub open spec fn fits64(x: int) -> bool {
    i64::MIN <= x <= i64::MAX
}

/// Evaluate an expression against a lookup.
///
/// Operands are evaluated left to right and the first error wins; a
/// conditional evaluates only the branch its condition selects; `min` takes
/// the least of its comma-joined arguments, keeping the earlier argument on
/// ties.  Division by a rational whose numerator is zero is a domain error.
/// Arithmetic is exact on unreduced rationals; an intermediate numerator or
/// denominator outside the signed 64-bit range is an overflow.
pub open spec fn spec_eval(m: ExprModel, env: Seq<(Seq<char>, (int, int))>) -> EvalOutcome
    decreases m, 0int,
{
    match m {
        ExprModel::Num { num, den } => {
            if den > 0 {
                EvalOutcome::Value { num, den }
            } else {
                EvalOutcome::Malformed
            }
        },
        ExprModel::Var(nm) => match spec_find(env, nm) {
            Option::None => EvalOutcome::Missing(nm),
            Option::Some((n, d)) => EvalOutcome::Value { num: n, den: d },
        },
        ExprModel::Add(a, b) => match spec_eval(*a, env) {
            EvalOutcome::Value { num: na, den: da } => match spec_eval(*b, env) {
                EvalOutcome::Value { num: nb, den: db } => {
                    if !fits64(na * db) || !fits64(nb * da) || !fits64(na * db + nb * da)
                        || !fits64(da * db) {
                        EvalOutcome::Overflow
                    } else {
                        EvalOutcome::Value { num: na * db + nb * da, den: da * db }
                    }
                },
                other => other,
            },
            other => other,
        },
        ExprModel::Sub(a, b) => match spec_eval(*a, env) {
            EvalOutcome::Value { num: na, den: da } => match spec_eval(*b, env) {
                EvalOutcome::Value { num: nb, den: db } => {
                    if !fits64(na * db) || !fits64(nb * da) || !fits64(na * db - nb * da)
                        || !fits64(da * db) {
                        EvalOutcome::Overflow
                    } else {
                        EvalOutcome::Value { num: na * db - nb * da, den: da * db }
                    }
                },
                other => other,
            },
            other => other,
        },
        ExprModel::Mul(a, b) => match spec_eval(*a, env) {
            EvalOutcome::Value { num: na, den: da } => match spec_eval(*b, env) {
                EvalOutcome::Value { num: nb, den: db } => {
                    if !fits64(na * nb) || !fits64(da * db) {
                        EvalOutcome::Overflow
                    } else {
                        EvalOutcome::Value { num: na * nb, den: da * db }
                    }
                },
                other => other,
            },
            other => other,
        },
        ExprModel::Div(a, b) => match spec_eval(*a, env) {
            EvalOutcome::Value { num: na, den: da } => match spec_eval(*b, env) {
                EvalOutcome::Value { num: nb, den: db } => {
                    if nb == 0 {
                        EvalOutcome::DivZero
                    } else if !fits64(na * db) || !fits64(da * nb) {
                        EvalOutcome::Overflow
                    } else if nb > 0 {
                        EvalOutcome::Value { num: na * db, den: da * nb }
                    } else if !fits64(-(na * db)) || !fits64(-(da * nb)) {
                        EvalOutcome::Overflow
                    } else {
                        EvalOutcome::Value { num: -(na * db), den: -(da * nb) }
                    }
                },
                other => other,
            },
            other => other,
        },
        ExprModel::If(c, t, e) => match spec_eval(*c, env) {
            EvalOutcome::Value { num: nc, den: dc } => {
                if nc != 0 {
                    spec_eval(*t, env)
                } else {
                    spec_eval(*e, env)
                }
            },
            other => other,
        },
        ExprModel::Min(a) => spec_eval_min(*a, env),
        ExprModel::Comma(_, _) => EvalOutcome::Malformed,
    }
}

/// Evaluate a `min` argument list: the least value among the comma-joined
/// arguments, the earlier argument winning ties.
pub open spec fn spec_eval_min(m: ExprModel, env: Seq<(Seq<char>, (int, int))>) -> EvalOutcome
    decreases m, 1int,
{
    match m {
        ExprModel::Comma(x, y) => match spec_eval_min(*x, env) {
            EvalOutcome::Value { num: nx, den: dx } => match spec_eval_min(*y, env) {
                EvalOutcome::Value { num: ny, den: dy } => {
                    if ny * dx < nx * dy {
                        EvalOutcome::Value { num: ny, den: dy }
                    } else {
                        EvalOutcome::Value { num: nx, den: dx }
                    }
                },
                other => other,
            },
            other => other,
        },
        _ => spec_eval(m, env),
    }
}

/// Whether the rational `a` is strictly less than `b`.
fn rat_lt(a: &Rational, b: &Rational) -> (r: bool)
    requires
        a.wf(),
        b.wf(),
    ensures
        r == (a.num * b.den < b.num * a.den),
{
    proof {
        lemma_i64_product_fits_i128(a.num as int, b.den as int);
        lemma_i64_product_fits_i128(b.num as int, a.den as int);
    }
    (a.num as i128) * (b.den as i128) < (b.num as i128) * (a.den as i128)
}

/// The product of two signed 64-bit values fits in 128 bits.
proof fn lemma_i64_product_fits_i128(x: int, y: int)
    requires
        i64::MIN <= x <= i64::MAX,
        i64::MIN <= y <= i64::MAX,
    ensures
        i128::MIN <= x * y <= i128::MAX,
{
    assert(x * y <= 0x8000_0000_0000_0000 * 0x8000_0000_0000_0000 && x * y
        >= -(0x8000_0000_0000_0000 * 0x8000_0000_0000_0000)) by (nonlinear_arith)
        requires
            -0x8000_0000_0000_0000 <= x <= 0x7fff_ffff_ffff_ffff,
            -0x8000_0000_0000_0000 <= y <= 0x7fff_ffff_ffff_ffff;
}

impl MetricExpr {
    /// Create a new `MetricExpr` from a supplied `&str`.
    ///
    /// The result is pinned by `spec_parse`, so any two successful parses of
    /// the same text yield the same expression.
    pub fn parse_str(input: &str) -> (r: Result<MetricExpr, Error>)
        ensures
            match spec_parse(input@) {
                Option::Some(m) => r matches Ok(e) && e@ == m,
                Option::None => r matches Err(e) && e is ParseMetricExpr,
            },
    {
        let ts = match tokenize(input) {
            Some(ts) => ts,
            None => {
                return Err(Error::ParseMetricExpr);
            },
        };
        match p_expr(&ts, 0) {
            Some((e, j)) => {
                if j == ts.len() {
                    Ok(e)
                } else {
                    Err(Error::ParseMetricExpr)
                }
            },
            None => Err(Error::ParseMetricExpr),
        }
    }

    /// Get names of all counters used in this expression, in leaf order,
    /// duplicates kept.
    pub fn get_counters(&self) -> (r: Vec<String>)
        ensures
            names_model(r@) == spec_counters(self@),
            names_model(r@).to_set() == spec_dependencies(self@),
        decreases self,
    {
        match self {
            MetricExpr::Num(_) => {
                let r = Vec::new();
                proof {
                    assert(names_model(r@) =~= spec_counters(self@));
                }
                r
            },
            MetricExpr::Var(nm) => {
                let mut r = Vec::new();
                r.push(nm.clone());
                proof {
                    assert(names_model(r@) =~= spec_counters(self@));
                }
                r
            },
            MetricExpr::Add(a, b) => counters_concat2(a.get_counters(), b.get_counters()),
            MetricExpr::Sub(a, b) => counters_concat2(a.get_counters(), b.get_counters()),
            MetricExpr::Mul(a, b) => counters_concat2(a.get_counters(), b.get_counters()),
            MetricExpr::Div(a, b) => counters_concat2(a.get_counters(), b.get_counters()),
            MetricExpr::If(c, t, e) => counters_concat2(
                counters_concat2(c.get_counters(), t.get_counters()),
                e.get_counters(),
            ),
            MetricExpr::Min(a) => a.get_counters(),
            MetricExpr::Comma(a, b) => counters_concat2(a.get_counters(), b.get_counters()),
        }
    }

    /// Evaluate this expression against the supplied event values.
    ///
    /// Every event name in the expression must resolve through `lookup`, or
    /// the evaluation fails naming the missing event; a division whose
    /// divisor evaluates to zero is a domain error rather than infinity.
    pub fn evaluate(&self, lookup: &EventValues) -> (r: Result<Rational, Error>)
        requires
            lookup.wf(),
        ensures
            match spec_eval(self@, lookup@) {
                EvalOutcome::Value { num, den } => r matches Ok(v) && v.num == num && v.den == den
                    && v.wf(),
                EvalOutcome::DivZero => r matches Err(e) && e is DivisionByZero,
                EvalOutcome::Missing(nm) => r matches Err(e) && (e matches Error::UnresolvedEvent(
                    s,
                ) && s@ == nm),
                EvalOutcome::Overflow => r matches Err(e) && e is ArithmeticOverflow,
                EvalOutcome::Malformed => r matches Err(e) && e is InvalidExpression,
            },
        decreases self, 0int,
    {
        match self {
            MetricExpr::Num(q) => {
                if q.den > 0 {
                    Ok(*q)
                } else {
                    Err(Error::InvalidExpression)
                }
            },
            MetricExpr::Var(nm) => match lookup.find(nm) {
                Some(v) => Ok(v),
                None => Err(Error::UnresolvedEvent(nm.clone())),
            },
            MetricExpr::Add(a, b) => {
                let va = match a.evaluate(lookup) {
                    Ok(v) => v,
                    Err(e) => {
                        return Err(e);
                    },
                };
                let vb = match b.evaluate(lookup) {
                    Ok(v) => v,
                    Err(e) => {
                        return Err(e);
                    },
                };
                let x = match va.num.checked_mul(vb.den) {
                    Some(x) => x,
                    None => {
                        return Err(Error::ArithmeticOverflow);
                    },
                };
                let y = match vb.num.checked_mul(va.den) {
                    Some(y) => y,
                    None => {
                        return Err(Error::ArithmeticOverflow);
                    },
                };
                let n = match x.checked_add(y) {
                    Some(n) => n,
                    None => {
                        return Err(Error::ArithmeticOverflow);
                    },
                };
                let d = match va.den.checked_mul(vb.den) {
                    Some(d) => d,
                    None => {
                        return Err(Error::ArithmeticOverflow);
                    },
                };
                proof {
                    lemma_pos_product(va.den as int, vb.den as int);
                }
                Ok(Rational { num: n, den: d })
            },
            MetricExpr::Sub(a, b) => {
                let va = match a.evaluate(lookup) {
                    Ok(v) => v,
                    Err(e) => {
                        return Err(e);
                    },
                };
                let vb = match b.evaluate(lookup) {
                    Ok(v) => v,
                    Err(e) => {
                        return Err(e);
                    },
                };
                let x = match va.num.checked_mul(vb.den) {
                    Some(x) => x,
                    None => {
                        return Err(Error::ArithmeticOverflow);
                    },
                };
                let y = match vb.num.checked_mul(va.den) {
                    Some(y) => y,
                    None => {
                        return Err(Error::ArithmeticOverflow);
                    },
                };
                let n = match x.checked_sub(y) {
                    Some(n) => n,
                    None => {
                        return Err(Error::ArithmeticOverflow);
                    },
                };
                let d = match va.den.checked_mul(vb.den) {
                    Some(d) => d,
                    None => {
                        return Err(Error::ArithmeticOverflow);
                    },
                };
                proof {
                    lemma_pos_product(va.den as int, vb.den as int);
                }
                Ok(Rational { num: n, den: d })
            },
            MetricExpr::Mul(a, b) => {
                let va = match a.evaluate(lookup) {
                    Ok(v) => v,
                    Err(e) => {
                        return Err(e);
                    },
                };
                let vb = match b.evaluate(lookup) {
                    Ok(v) => v,
                    Err(e) => {
                        return Err(e);
                    },
                };
                let n = match va.num.checked_mul(vb.num) {
                    Some(n) => n,
                    None => {
                        return Err(Error::ArithmeticOverflow);
                    },
                };
                let d = match va.den.checked_mul(vb.den) {
                    Some(d) => d,
                    None => {
                        return Err(Error::ArithmeticOverflow);
                    },
                };
                proof {
                    lemma_pos_product(va.den as int, vb.den as int);
                }
                Ok(Rational { num: n, den: d })
            },
            MetricExpr::Div(a, b) => {
                let va = match a.evaluate(lookup) {
                    Ok(v) => v,
                    Err(e) => {
                        return Err(e);
                    },
                };
                let vb = match b.evaluate(lookup) {
                    Ok(v) => v,
                    Err(e) => {
                        return Err(e);
                    },
                };
                if vb.num == 0 {
                    return Err(Error::DivisionByZero);
                }
                let n0 = match va.num.checked_mul(vb.den) {
                    Some(n0) => n0,
                    None => {
                        return Err(Error::ArithmeticOverflow);
                    },
                };
                let d0 = match va.den.checked_mul(vb.num) {
                    Some(d0) => d0,
                    None => {
                        return Err(Error::ArithmeticOverflow);
                    },
                };
                if vb.num > 0 {
                    proof {
                        lemma_pos_product(va.den as int, vb.num as int);
                    }
                    Ok(Rational { num: n0, den: d0 })
                } else {
                    if n0 == i64::MIN || d0 == i64::MIN {
                        return Err(Error::ArithmeticOverflow);
                    }
                    let n1: i64 = -n0;
                    let d1: i64 = -d0;
                    proof {
                        lemma_neg_product(va.den as int, vb.num as int);
                    }
                    Ok(Rational { num: n1, den: d1 })
                }
            },
            MetricExpr::If(c, t, e) => {
                let vc = match c.evaluate(lookup) {
                    Ok(v) => v,
                    Err(err) => {
                        return Err(err);
                    },
                };
                if vc.num != 0 {
                    t.evaluate(lookup)
                } else {
                    e.evaluate(lookup)
                }
            },
            MetricExpr::Min(a) => a.evaluate_min(lookup),
            MetricExpr::Comma(_, _) => Err(Error::InvalidExpression),
        }
    }

    /// Evaluate a `min` argument list to its least value.
    fn evaluate_min(&self, lookup: &EventValues) -> (r: Result<Rational, Error>)
        requires
            lookup.wf(),
        ensures
            match spec_eval_min(self@, lookup@) {
                EvalOutcome::Value { num, den } => r matches Ok(v) && v.num == num && v.den == den
                    && v.wf(),
                EvalOutcome::DivZero => r matches Err(e) && e is DivisionByZero,
                EvalOutcome::Missing(nm) => r matches Err(e) && (e matches Error::UnresolvedEvent(
                    s,
                ) && s@ == nm),
                EvalOutcome::Overflow => r matches Err(e) && e is ArithmeticOverflow,
                EvalOutcome::Malformed => r matches Err(e) && e is InvalidExpression,
            },
        decreases self, 1int,
    {
        match self {
            MetricExpr::Comma(x, y) => {
                let vx = match x.evaluate_min(lookup) {
                    Ok(v) => v,
                    Err(e) => {
                        return Err(e);
                    },
                };
                let vy = match y.evaluate_min(lookup) {
                    Ok(v) => v,
                    Err(e) => {
                        return Err(e);
                    },
                };
                if rat_lt(&vy, &vx) {
                    Ok(vy)
                } else {
                    Ok(vx)
                }
            },
            _ => self.evaluate(lookup),
        }
    }
}

/// Concatenate two counter-name vectors.
fn counters_concat2(a: Vec<String>, b: Vec<String>) -> (r: Vec<String>)
    ensures
        names_model(r@) == names_model(a@) + names_model(b@),
{
    let mut a = a;
    let mut b = b;
    let ghost a0 = a@;
    let ghost b0 = b@;
    a.append(&mut b);
    proof {
        lemma_names_model_concat(a0, b0);
    }
    a
}

/// A product of positive values is positive.
proof fn lemma_pos_product(x: int, y: int)
    requires
        x > 0,
        y > 0,
    ensures
        x * y > 0,
{
    assert(x * y > 0) by (nonlinear_arith)
        requires
            x > 0 && y > 0;
}

/// A product of a positive and a negative value is negative.
proof fn lemma_neg_product(x: int, y: int)
    requires
        x > 0,
        y < 0,
    ensures
        x * y < 0,
{
    assert(x * y < 0) by (nonlinear_arith)
        requires
            x > 0 && y < 0;
}

/// Parsing is a function of the formula text alone: two successful parses
/// of the same text are the same expression, so evaluating them against the
/// same lookup yields identical results, with no hidden state.
pub proof fn lemma_metric_round_trip(
    s: Seq<char>,
    e1: ExprModel,
    e2: ExprModel,
    env: Seq<(Seq<char>, (int, int))>,
)
    requires
        spec_parse(s) == Option::Some(e1),
        spec_parse(s) == Option::Some(e2),
    ensures
        e1 == e2,
        spec_eval(e1, env) == spec_eval(e2, env),
{
}

} // verus!
