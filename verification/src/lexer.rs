//! The lexer: turns source text into tokens.
use vstd::prelude::*;

verus! {

/// Tokens of the language.
#[derive(Debug, Clone, PartialEq, Eq)]
pub enum Token {
    Int(i64),
    Bool(bool),
    Ident(String),
    Let,
    In,
    If,
    Then,
    Else,
    Lambda,
    Colon,
    Arrow,
    LParen,
    RParen,
    Plus,
    Minus,
    Star,
    EqEq,
    Lt,
    Assign,
}

/// The model of a token: an identifier is a character sequence.
pub enum SpecToken {
    Int(i64),
    Bool(bool),
    Ident(Seq<char>),
    Let,
    In,
    If,
    Then,
    Else,
    Lambda,
    Colon,
    Arrow,
    LParen,
    RParen,
    Plus,
    Minus,
    Star,
    EqEq,
    Lt,
    Assign,
}

impl View for Token {
    type V = SpecToken;

    open spec fn view(&self) -> SpecToken {
        match self {
            Token::Int(n) => SpecToken::Int(*n),
            Token::Bool(b) => SpecToken::Bool(*b),
            Token::Ident(s) => SpecToken::Ident(s@),
            Token::Let => SpecToken::Let,
            Token::In => SpecToken::In,
            Token::If => SpecToken::If,
            Token::Then => SpecToken::Then,
            Token::Else => SpecToken::Else,
            Token::Lambda => SpecToken::Lambda,
            Token::Colon => SpecToken::Colon,
            Token::Arrow => SpecToken::Arrow,
            Token::LParen => SpecToken::LParen,
            Token::RParen => SpecToken::RParen,
            Token::Plus => SpecToken::Plus,
            Token::Minus => SpecToken::Minus,
            Token::Star => SpecToken::Star,
            Token::EqEq => SpecToken::EqEq,
            Token::Lt => SpecToken::Lt,
            Token::Assign => SpecToken::Assign,
        }
    }
}

/// The models of a sequence of tokens.
pub open spec fn tokens_model(ts: Seq<Token>) -> Seq<SpecToken> {
    ts.map_values(|t: Token| t@)
}

/// The error of the lexer.
#[derive(Debug, Clone, PartialEq, Eq)]
pub struct LexError {
    pub message: String,
}

pub open spec fn is_space(c: char) -> bool {
    c == ' ' || c == '\n' || c == '\t' || c == '\r'
}

pub open spec fn is_digit(c: char) -> bool {
    '0' <= c && c <= '9'
}

pub open spec fn is_ident_start(c: char) -> bool {
    ('a' <= c && c <= 'z') || ('A' <= c && c <= 'Z') || c == '_'
}

pub open spec fn is_ident_char(c: char) -> bool {
    is_ident_start(c) || is_digit(c)
}

/// The value of a decimal digit.
pub open spec fn digit_value(c: char) -> nat {
    ((c as int) - ('0' as int)) as nat
}

/// The value of a sequence of decimal digits.
pub open spec fn decimal(d: Seq<char>) -> nat
    decreases d.len(),
{
    if d.len() == 0 {
        0
    } else {
        decimal(d.drop_last()) * 10 + digit_value(d.last())
    }
}

/// The decimal digits of a natural number.
pub open spec fn decimal_text(n: nat) -> Seq<char>
    decreases n,
{
    if n < 10 {
        digit_text(n)
    } else {
        decimal_text(n / 10) + digit_text(n % 10)
    }
}

/// The digit of a number below ten.
pub open spec fn digit_text(d: nat) -> Seq<char> {
    if d == 0 {
        "0"@
    } else if d == 1 {
        "1"@
    } else if d == 2 {
        "2"@
    } else if d == 3 {
        "3"@
    } else if d == 4 {
        "4"@
    } else if d == 5 {
        "5"@
    } else if d == 6 {
        "6"@
    } else if d == 7 {
        "7"@
    } else if d == 8 {
        "8"@
    } else {
        "9"@
    }
}

/// An integer in decimal, with a minus sign when it is negative.
pub open spec fn int_text(n: int) -> Seq<char> {
    if n < 0 {
        "-"@ + decimal_text((-n) as nat)
    } else {
        decimal_text(n as nat)
    }
}

/// The end of the run of digits that starts at `i`.
pub open spec fn digits_end(s: Seq<char>, i: int) -> int
    decreases s.len() - i,
{
    if 0 <= i < s.len() && is_digit(s[i]) {
        digits_end(s, i + 1)
    } else {
        i
    }
}

/// The end of the run of identifier characters that starts at `i`.
pub open spec fn ident_end(s: Seq<char>, i: int) -> int
    decreases s.len() - i,
{
    if 0 <= i < s.len() && is_ident_char(s[i]) {
        ident_end(s, i + 1)
    } else {
        i
    }
}

/// A `-` at `i` starts a negative integer literal when a digit follows it
/// at once, the character before it cannot end an operand, and the token
/// before it is not a value (`after_value`).
pub open spec fn starts_negative_literal(s: Seq<char>, i: int, after_value: bool) -> bool {
    &&& 0 <= i < s.len()
    &&& s[i] == '-'
    &&& i + 1 < s.len()
    &&& is_digit(s[i + 1])
    &&& (i == 0 || !(is_ident_char(s[i - 1]) || s[i - 1] == ')'))
    &&& !after_value
}

/// The tokens after which a `-` always subtracts: literals and `)`.
pub open spec fn ends_value(t: SpecToken) -> bool {
    t is Int || t is Bool || t == SpecToken::RParen
}

/// The token of a word: a keyword, a boolean literal or an identifier.
pub open spec fn word_token(w: Seq<char>) -> SpecToken {
    if w == seq!['l', 'e', 't'] {
        SpecToken::Let
    } else if w == seq!['i', 'n'] {
        SpecToken::In
    } else if w == seq!['i', 'f'] {
        SpecToken::If
    } else if w == seq!['t', 'h', 'e', 'n'] {
        SpecToken::Then
    } else if w == seq!['e', 'l', 's', 'e'] {
        SpecToken::Else
    } else if w == seq!['t', 'r', 'u', 'e'] {
        SpecToken::Bool(true)
    } else if w == seq!['f', 'a', 'l', 's', 'e'] {
        SpecToken::Bool(false)
    } else {
        SpecToken::Ident(w)
    }
}

pub open spec fn too_large_message() -> Seq<char> {
    "invalid integer literal: number too large to fit in target type"@
}

pub open spec fn too_small_message() -> Seq<char> {
    "invalid integer literal: number too small to fit in target type"@
}

pub open spec fn unexpected_message(c: char) -> Seq<char> {
    "unexpected character '"@ + seq![c] + "'"@
}

/// What the lexer does at one position: skip a character, read a token
/// and go on at the given position, or fail with a message.
pub enum LexStep {
    Skip(int),
    Tok(SpecToken, int),
    Fail(Seq<char>),
}

/// The integer literal whose digits start at `k` (negated when `negative`).
pub open spec fn number_step(s: Seq<char>, k: int, negative: bool) -> LexStep {
    let j = digits_end(s, k);
    let v = decimal(s.subrange(k, j));
    if !negative {
        if v <= i64::MAX {
            LexStep::Tok(SpecToken::Int(v as i64), j)
        } else {
            LexStep::Fail(too_large_message())
        }
    } else {
        if v <= 0x8000_0000_0000_0000 {
            LexStep::Tok(SpecToken::Int((0 - v) as i64), j)
        } else {
            LexStep::Fail(too_small_message())
        }
    }
}

/// One step of the lexer at position `i` of `s`; `after_value` says
/// whether the last token was a literal or `)`.
pub open spec fn lex_step(s: Seq<char>, i: int, after_value: bool) -> LexStep {
    let c = s[i];
    if is_space(c) {
        LexStep::Skip(i + 1)
    } else if c == '(' {
        LexStep::Tok(SpecToken::LParen, i + 1)
    } else if c == ')' {
        LexStep::Tok(SpecToken::RParen, i + 1)
    } else if c == ':' {
        LexStep::Tok(SpecToken::Colon, i + 1)
    } else if c == '+' {
        LexStep::Tok(SpecToken::Plus, i + 1)
    } else if c == '*' {
        LexStep::Tok(SpecToken::Star, i + 1)
    } else if c == '<' {
        LexStep::Tok(SpecToken::Lt, i + 1)
    } else if c == '=' {
        if i + 1 < s.len() && s[i + 1] == '=' {
            LexStep::Tok(SpecToken::EqEq, i + 2)
        } else {
            LexStep::Tok(SpecToken::Assign, i + 1)
        }
    } else if c == '-' {
        if starts_negative_literal(s, i, after_value) {
            number_step(s, i + 1, true)
        } else if i + 1 < s.len() && s[i + 1] == '>' {
            LexStep::Tok(SpecToken::Arrow, i + 2)
        } else {
            LexStep::Tok(SpecToken::Minus, i + 1)
        }
    } else if c == '\\' {
        LexStep::Tok(SpecToken::Lambda, i + 1)
    } else if is_digit(c) {
        number_step(s, i, false)
    } else if is_ident_start(c) {
        let j = ident_end(s, i);
        LexStep::Tok(word_token(s.subrange(i, j)), j)
    } else {
        LexStep::Fail(unexpected_message(c))
    }
}

/// `tokens` put in front of the tokens of a lexing result.
pub open spec fn prepend_tokens(
    tokens: Seq<SpecToken>,
    r: Result<Seq<SpecToken>, Seq<char>>,
) -> Result<Seq<SpecToken>, Seq<char>> {
    match r {
        Ok(rest) => Ok(tokens + rest),
        Err(m) => Err(m),
    }
}

/// The tokens of `s` from position `i` on, or the message of the first
/// error; `after_value` says whether the last token was a literal or `)`.
pub open spec fn lex_from(s: Seq<char>, i: int, after_value: bool) -> Result<
    Seq<SpecToken>,
    Seq<char>,
>
    decreases s.len() - i,
{
    if i < 0 || i >= s.len() {
        Ok(seq![])
    } else {
        match lex_step(s, i, after_value) {
            LexStep::Skip(j) => if i < j <= s.len() {
                lex_from(s, j, after_value)
            } else {
                Ok(seq![])
            },
            LexStep::Tok(t, j) => if i < j <= s.len() {
                prepend_tokens(seq![t], lex_from(s, j, ends_value(t)))
            } else {
                Ok(seq![])
            },
            LexStep::Fail(m) => Err(m),
        }
    }
}

/// The tokens of a source text, or the message of the first error.
pub open spec fn lex_spec(s: Seq<char>) -> Result<Seq<SpecToken>, Seq<char>> {
    lex_from(s, 0, false)
}

proof fn lemma_digits_end(s: Seq<char>, i: int)
    requires
        0 <= i <= s.len(),
    ensures
        i <= digits_end(s, i) <= s.len(),
        forall|k: int| i <= k < digits_end(s, i) ==> is_digit(#[trigger] s[k]),
        digits_end(s, i) < s.len() ==> !is_digit(s[digits_end(s, i)]),
    decreases s.len() - i,
{
    if i < s.len() && is_digit(s[i]) {
        lemma_digits_end(s, i + 1);
    }
}

proof fn lemma_ident_end(s: Seq<char>, i: int)
    requires
        0 <= i <= s.len(),
    ensures
        i <= ident_end(s, i) <= s.len(),
        forall|k: int| i <= k < ident_end(s, i) ==> is_ident_char(#[trigger] s[k]),
        ident_end(s, i) < s.len() ==> !is_ident_char(s[ident_end(s, i)]),
    decreases s.len() - i,
{
    if i < s.len() && is_ident_char(s[i]) {
        lemma_ident_end(s, i + 1);
    }
}

/// A prefix of a digit sequence has no larger a value.
proof fn lemma_decimal_prefix(d: Seq<char>, m: int)
    requires
        0 <= m <= d.len(),
    ensures
        decimal(d.take(m)) <= decimal(d),
    decreases d.len(),
{
    if m < d.len() {
        lemma_decimal_prefix(d.drop_last(), m);
        assert(d.drop_last().take(m) =~= d.take(m));
    } else {
        assert(d.take(m) =~= d);
    }
}

/// The end of the digit run at `i`.
fn exec_digits_end(cs: &Vec<char>, i: usize) -> (j: usize)
    requires
        i <= cs@.len(),
    ensures
        j == digits_end(cs@, i as int),
{
    let mut k = i;
    while k < cs.len() && '0' <= cs[k] && cs[k] <= '9'
        invariant
            i <= k <= cs@.len(),
            digits_end(cs@, k as int) == digits_end(cs@, i as int),
        decreases cs@.len() - k,
    {
        k = k + 1;
    }
    k
}

/// The end of the identifier run at `i`.
fn exec_ident_end(cs: &Vec<char>, i: usize) -> (j: usize)
    requires
        i <= cs@.len(),
    ensures
        j == ident_end(cs@, i as int),
{
    let mut k = i;
    while k < cs.len() && (('a' <= cs[k] && cs[k] <= 'z') || ('A' <= cs[k] && cs[k] <= 'Z')
        || cs[k] == '_' || ('0' <= cs[k] && cs[k] <= '9'))
        invariant
            i <= k <= cs@.len(),
            ident_end(cs@, k as int) == ident_end(cs@, i as int),
        decreases cs@.len() - k,
    {
        k = k + 1;
    }
    k
}

/// The value of the digits in `cs[k..j]`, where it fits in a `u64`.
fn exec_decimal(cs: &Vec<char>, k: usize, j: usize) -> (r: Option<u64>)
    requires
        k <= j <= cs@.len(),
        forall|m: int| k <= m < j ==> is_digit(#[trigger] cs@[m]),
    ensures
        r == (if decimal(cs@.subrange(k as int, j as int)) <= u64::MAX {
            Some(decimal(cs@.subrange(k as int, j as int)) as u64)
        } else {
            None::<u64>
        }),
{
    let ghost d = cs@.subrange(k as int, j as int);
    let mut v: u64 = 0;
    let mut m = k;
    assert(cs@.subrange(k as int, k as int) =~= Seq::<char>::empty());
    while m < j
        invariant
            k <= m <= j <= cs@.len(),
            d == cs@.subrange(k as int, j as int),
            forall|x: int| k <= x < j ==> is_digit(#[trigger] cs@[x]),
            v == decimal(cs@.subrange(k as int, m as int)),
        decreases j - m,
    {
        let ghost prefix = cs@.subrange(k as int, m as int + 1);
        assert(prefix.drop_last() =~= cs@.subrange(k as int, m as int));
        assert(prefix.last() == cs@[m as int]);
        assert(is_digit(cs@[m as int]));
        let digit = (cs[m] as u32 - '0' as u32) as u64;
        assert(digit == digit_value(cs@[m as int]));
        assert(prefix =~= d.take(m - k + 1));
        match v.checked_mul(10) {
            None => {
                proof {
                    lemma_decimal_prefix(d, m - k + 1);
                }
                return None;
            },
            Some(t) => match t.checked_add(digit) {
                None => {
                    proof {
                        lemma_decimal_prefix(d, m - k + 1);
                    }
                    return None;
                },
                Some(nv) => {
                    v = nv;
                },
            },
        }
        m = m + 1;
    }
    Some(v)
}

/// The token of the word `cs[i..j]`.
fn exec_word_token(input: &str, cs: &Vec<char>, i: usize, j: usize) -> (t: Token)
    requires
        i <= j <= cs@.len(),
        cs@ == input@,
    ensures
        t@ == word_token(cs@.subrange(i as int, j as int)),
{
    let ghost w = cs@.subrange(i as int, j as int);
    let n = j - i;
    assert(w.len() == n);
    if n == 3 && cs[i] == 'l' && cs[i + 1] == 'e' && cs[i + 2] == 't' {
        assert(w =~= seq!['l', 'e', 't']);
        Token::Let
    } else if n == 2 && cs[i] == 'i' && cs[i + 1] == 'n' {
        assert(w =~= seq!['i', 'n']);
        Token::In
    } else if n == 2 && cs[i] == 'i' && cs[i + 1] == 'f' {
        assert(w =~= seq!['i', 'f']);
        Token::If
    } else if n == 4 && cs[i] == 't' && cs[i + 1] == 'h' && cs[i + 2] == 'e' && cs[i + 3] == 'n' {
        assert(w =~= seq!['t', 'h', 'e', 'n']);
        Token::Then
    } else if n == 4 && cs[i] == 'e' && cs[i + 1] == 'l' && cs[i + 2] == 's' && cs[i + 3] == 'e' {
        assert(w =~= seq!['e', 'l', 's', 'e']);
        Token::Else
    } else if n == 4 && cs[i] == 't' && cs[i + 1] == 'r' && cs[i + 2] == 'u' && cs[i + 3] == 'e' {
        assert(w =~= seq!['t', 'r', 'u', 'e']);
        Token::Bool(true)
    } else if n == 5 && cs[i] == 'f' && cs[i + 1] == 'a' && cs[i + 2] == 'l' && cs[i + 3] == 's'
        && cs[i + 4] == 'e' {
        assert(w =~= seq!['f', 'a', 'l', 's', 'e']);
        Token::Bool(false)
    } else {
        assert(w != seq!['l', 'e', 't']) by {
            if w == seq!['l', 'e', 't'] {
                assert(w[0] == 'l' && w[1] == 'e' && w[2] == 't');
                assert(cs@[i as int] == 'l' && cs@[i + 1] == 'e' && cs@[i + 2] == 't');
            }
        }
        assert(w != seq!['i', 'n']) by {
            if w == seq!['i', 'n'] {
                assert(w[0] == 'i' && w[1] == 'n');
                assert(cs@[i as int] == 'i' && cs@[i + 1] == 'n');
            }
        }
        assert(w != seq!['i', 'f']) by {
            if w == seq!['i', 'f'] {
                assert(w[0] == 'i' && w[1] == 'f');
                assert(cs@[i as int] == 'i' && cs@[i + 1] == 'f');
            }
        }
        assert(w != seq!['t', 'h', 'e', 'n']) by {
            if w == seq!['t', 'h', 'e', 'n'] {
                assert(w[0] == 't' && w[1] == 'h' && w[2] == 'e' && w[3] == 'n');
            }
        }
        assert(w != seq!['e', 'l', 's', 'e']) by {
            if w == seq!['e', 'l', 's', 'e'] {
                assert(w[0] == 'e' && w[1] == 'l' && w[2] == 's' && w[3] == 'e');
            }
        }
        assert(w != seq!['t', 'r', 'u', 'e']) by {
            if w == seq!['t', 'r', 'u', 'e'] {
                assert(w[0] == 't' && w[1] == 'r' && w[2] == 'u' && w[3] == 'e');
            }
        }
        assert(w != seq!['f', 'a', 'l', 's', 'e']) by {
            if w == seq!['f', 'a', 'l', 's', 'e'] {
                assert(w[0] == 'f' && w[1] == 'a' && w[2] == 'l' && w[3] == 's' && w[4] == 'e');
            }
        }
        let name = String::from_str(input.substring_char(i, j));
        Token::Ident(name)
    }
}

/// The characters of `input`.
pub(crate) fn chars_of(input: &str) -> (cs: Vec<char>)
    ensures
        cs@ == input@,
{
    broadcast use vstd::string::group_string_axioms;
    let mut cs: Vec<char> = Vec::new();
    for c in it: input.chars()
        invariant
            it.seq() == input@,
            cs@ == it.seq().take(it.index() as int),
    {
        cs.push(c);
    }
    cs
}

/// The integer literal whose digits start at `k` (negated when `negative`).
fn exec_number(cs: &Vec<char>, k: usize, negative: bool) -> (r: Result<(Token, usize), LexError>)
    requires
        k < cs@.len(),
        is_digit(cs@[k as int]),
    ensures
        match r {
            Ok((t, j)) => number_step(cs@, k as int, negative) == LexStep::Tok(t@, j as int),
            Err(e) => number_step(cs@, k as int, negative) == LexStep::Fail(e.message@),
        },
{
    let j = exec_digits_end(cs, k);
    proof {
        lemma_digits_end(cs@, k as int);
    }
    let v = exec_decimal(cs, k, j);
    if !negative {
        match v {
            Some(v) => {
                if v <= 0x7fff_ffff_ffff_ffff {
                    return Ok((Token::Int(v as i64), j));
                }
            },
            None => {},
        }
        Err(LexError { message: String::from_str("invalid integer literal: number too large to fit in target type") })
    } else {
        match v {
            Some(v) => {
                if v < 0x8000_0000_0000_0000 {
                    return Ok((Token::Int(-(v as i64)), j));
                } else if v == 0x8000_0000_0000_0000 {
                    return Ok((Token::Int(i64::MIN), j));
                }
            },
            None => {},
        }
        Err(LexError { message: String::from_str("invalid integer literal: number too small to fit in target type") })
    }
}

/// One step of the lexer at position `i`: `None` for a skipped character.
fn exec_lex_step(input: &str, cs: &Vec<char>, i: usize, after_value: bool) -> (r: Result<
    (Option<Token>, usize),
    LexError,
>)
    requires
        i < cs@.len(),
        cs@ == input@,
    ensures
        match r {
            Ok((None, j)) => lex_step(cs@, i as int, after_value) == LexStep::Skip(j as int),
            Ok((Some(t), j)) => lex_step(cs@, i as int, after_value) == LexStep::Tok(t@, j as int),
            Err(e) => lex_step(cs@, i as int, after_value) == LexStep::Fail(e.message@),
        },
        r is Ok ==> i < r->Ok_0.1 <= cs@.len(),
{
    let c = cs[i];
    let n = cs.len();
    if c == ' ' || c == '\n' || c == '\t' || c == '\r' {
        Ok((None, i + 1))
    } else if c == '(' {
        Ok((Some(Token::LParen), i + 1))
    } else if c == ')' {
        Ok((Some(Token::RParen), i + 1))
    } else if c == ':' {
        Ok((Some(Token::Colon), i + 1))
    } else if c == '+' {
        Ok((Some(Token::Plus), i + 1))
    } else if c == '*' {
        Ok((Some(Token::Star), i + 1))
    } else if c == '<' {
        Ok((Some(Token::Lt), i + 1))
    } else if c == '=' {
        if i + 1 < n && cs[i + 1] == '=' {
            Ok((Some(Token::EqEq), i + 2))
        } else {
            Ok((Some(Token::Assign), i + 1))
        }
    } else if c == '-' {
        let digit_follows = i + 1 < n && '0' <= cs[i + 1] && cs[i + 1] <= '9';
        let operand_before = i > 0 && (('a' <= cs[i - 1] && cs[i - 1] <= 'z') || ('A' <= cs[i - 1]
            && cs[i - 1] <= 'Z') || cs[i - 1] == '_' || ('0' <= cs[i - 1] && cs[i - 1] <= '9')
            || cs[i - 1] == ')');
        if digit_follows && !operand_before && !after_value {
            proof {
                lemma_digits_end(cs@, i + 1);
            }
            match exec_number(cs, i + 1, true) {
                Ok((t, j)) => Ok((Some(t), j)),
                Err(e) => Err(e),
            }
        } else if i + 1 < n && cs[i + 1] == '>' {
            Ok((Some(Token::Arrow), i + 2))
        } else {
            Ok((Some(Token::Minus), i + 1))
        }
    } else if c == '\\' {
        Ok((Some(Token::Lambda), i + 1))
    } else if '0' <= c && c <= '9' {
        proof {
            lemma_digits_end(cs@, i as int);
        }
        match exec_number(cs, i, false) {
            Ok((t, j)) => Ok((Some(t), j)),
            Err(e) => Err(e),
        }
    } else if ('a' <= c && c <= 'z') || ('A' <= c && c <= 'Z') || c == '_' {
        let j = exec_ident_end(cs, i);
        proof {
            lemma_ident_end(cs@, i as int);
        }
        let t = exec_word_token(input, cs, i, j);
        Ok((Some(t), j))
    } else {
        let s = String::from_str("unexpected character '");
        let s = s.concat(input.substring_char(i, i + 1));
        let s = s.concat("'");
        assert(cs@.subrange(i as int, i + 1) =~= seq![c]);
        Err(LexError { message: s })
    }
}

/// Splits `input` into tokens; fails on an unexpected character or an
/// integer literal out of the range of `i64`.
pub fn lex(input: &str) -> (res: Result<Vec<Token>, LexError>)
    ensures
        match res {
            Ok(ts) => lex_spec(input@) == Ok::<Seq<SpecToken>, Seq<char>>(tokens_model(ts@)),
            Err(e) => lex_spec(input@) == Err::<Seq<SpecToken>, Seq<char>>(e.message@),
        },
{
    let cs = chars_of(input);
    let mut tokens: Vec<Token> = Vec::new();
    let mut i: usize = 0;
    let mut after_value = false;
    assert(tokens_model(tokens@) =~= Seq::<SpecToken>::empty());
    assert(prepend_tokens(Seq::<SpecToken>::empty(), lex_from(cs@, 0, false)) == lex_from(
        cs@,
        0,
        false,
    )) by {
        match lex_from(cs@, 0, false) {
            Ok(r) => {
                assert(Seq::<SpecToken>::empty() + r =~= r);
            },
            Err(_) => {},
        }
    }
    while i < cs.len()
        invariant
            i <= cs@.len(),
            cs@ == input@,
            lex_spec(input@) == prepend_tokens(
                tokens_model(tokens@),
                lex_from(cs@, i as int, after_value),
            ),
        decreases cs@.len() - i,
    {
        let ghost old_tokens = tokens_model(tokens@);
        match exec_lex_step(input, &cs, i, after_value) {
            Err(e) => {
                return Err(e);
            },
            Ok((None, j)) => {
                i = j;
            },
            Ok((Some(t), j)) => {
                let ghost tm = t@;
                after_value = match t {
                    Token::Int(_) | Token::Bool(_) | Token::RParen => true,
                    _ => false,
                };
                tokens.push(t);
                proof {
                    assert(tokens_model(tokens@) =~= old_tokens.push(tm));
                    match lex_from(cs@, j as int, after_value) {
                        Ok(r) => {
                            assert(old_tokens + (seq![tm] + r) =~= old_tokens.push(tm) + r);
                        },
                        Err(_) => {},
                    }
                }
                i = j;
            },
        }
    }
    assert(tokens_model(tokens@) + Seq::<SpecToken>::empty() =~= tokens_model(tokens@));
    Ok(tokens)
}


/// Whether `s`, from `k` on and after any spaces, begins with a `-` that
/// starts a negative literal.
pub open spec fn leads_with_negative_literal(s: Seq<char>, k: int) -> bool
    decreases s.len() - k,
{
    if 0 <= k < s.len() && is_space(s[k]) {
        leads_with_negative_literal(s, k + 1)
    } else {
        starts_negative_literal(s, k, false)
    }
}

/// The runs of digits and of identifier characters in `a` end where they
/// end in `a` followed by a space and `b`.
proof fn lemma_runs_in_prefix(a: Seq<char>, b: Seq<char>, k: int)
    requires
        0 <= k <= a.len(),
    ensures
        digits_end(a + seq![' '] + b, k) == digits_end(a, k),
        ident_end(a + seq![' '] + b, k) == ident_end(a, k),
    decreases a.len() - k,
{
    let s = a + seq![' '] + b;
    assert(s[a.len() as int] == ' ');
    if k < a.len() {
        assert(s[k] == a[k]);
        lemma_runs_in_prefix(a, b, k + 1);
    }
}

/// The runs of digits and of identifier characters in `b` end where they
/// end in `a` followed by a space and `b`, shifted.
proof fn lemma_runs_in_suffix(a: Seq<char>, b: Seq<char>, k: int)
    requires
        0 <= k <= b.len(),
    ensures
        digits_end(a + seq![' '] + b, a.len() + 1 + k) == a.len() + 1 + digits_end(b, k),
        ident_end(a + seq![' '] + b, a.len() + 1 + k) == a.len() + 1 + ident_end(b, k),
    decreases b.len() - k,
{
    let s = a + seq![' '] + b;
    if k < b.len() {
        assert(s[a.len() + 1 + k] == b[k]);
        lemma_runs_in_suffix(a, b, k + 1);
    }
}

/// Inside `a`, the lexer steps in `a` followed by a space and `b` as it
/// does in `a` alone.
proof fn lemma_step_in_prefix(a: Seq<char>, b: Seq<char>, i: int, av: bool)
    requires
        0 <= i < a.len(),
    ensures
        lex_step(a + seq![' '] + b, i, av) == lex_step(a, i, av),
        match lex_step(a, i, av) {
            LexStep::Skip(j) => i < j <= a.len(),
            LexStep::Tok(_, j) => i < j <= a.len(),
            LexStep::Fail(_) => true,
        },
{
    let s = a + seq![' '] + b;
    assert(s[i] == a[i]);
    assert(s[a.len() as int] == ' ');
    if i + 1 < a.len() {
        assert(s[i + 1] == a[i + 1]);
    }
    if i > 0 {
        assert(s[i - 1] == a[i - 1]);
    }
    lemma_runs_in_prefix(a, b, i);
    lemma_runs_in_prefix(a, b, i + 1);
    lemma_digits_end(a, i);
    lemma_digits_end(a, i + 1);
    lemma_ident_end(a, i);
    assert(s.subrange(i, digits_end(a, i)) =~= a.subrange(i, digits_end(a, i)));
    assert(s.subrange(i + 1, digits_end(a, i + 1)) =~= a.subrange(i + 1, digits_end(a, i + 1)));
    assert(s.subrange(i, ident_end(a, i)) =~= a.subrange(i, ident_end(a, i)));
}

/// Inside `b`, the lexer steps in `a` followed by a space and `b` as it
/// does in `b` alone, at positions shifted by the length of `a` and the
/// space.
proof fn lemma_step_in_suffix(a: Seq<char>, b: Seq<char>, k: int, av: bool)
    requires
        0 <= k < b.len(),
    ensures
        ({
            let n = a.len() + 1;
            lex_step(a + seq![' '] + b, n + k, av) == match lex_step(b, k, av) {
                LexStep::Skip(j) => LexStep::Skip(n + j),
                LexStep::Tok(t, j) => LexStep::Tok(t, n + j),
                LexStep::Fail(m) => LexStep::Fail(m),
            }
        }),
        match lex_step(b, k, av) {
            LexStep::Skip(j) => k < j <= b.len(),
            LexStep::Tok(_, j) => k < j <= b.len(),
            LexStep::Fail(_) => true,
        },
{
    let s = a + seq![' '] + b;
    let n = a.len() + 1;
    assert(s[n + k] == b[k]);
    assert(s[n - 1] == ' ');
    if k + 1 < b.len() {
        assert(s[n + k + 1] == b[k + 1]);
    }
    if k > 0 {
        assert(s[n + k - 1] == b[k - 1]);
    }
    lemma_runs_in_suffix(a, b, k);
    lemma_runs_in_suffix(a, b, k + 1);
    lemma_digits_end(b, k);
    lemma_digits_end(b, k + 1);
    lemma_ident_end(b, k);
    assert(s.subrange(n + k, n + digits_end(b, k)) =~= b.subrange(k, digits_end(b, k)));
    assert(s.subrange(n + k + 1, n + digits_end(b, k + 1)) =~= b.subrange(
        k + 1,
        digits_end(b, k + 1),
    ));
    assert(s.subrange(n + k, n + ident_end(b, k)) =~= b.subrange(k, ident_end(b, k)));
}

/// The state after the tokens `ts`, lexed from the state `av`.
pub open spec fn state_after(ts: Seq<SpecToken>, av: bool) -> bool {
    if ts.len() > 0 {
        ends_value(ts.last())
    } else {
        av
    }
}

/// Lexing `a` followed by a space and `b` gives, up to the end of `a`, what
/// lexing `a` gives, and goes on at the end of `a` in the state its last
/// token left.
proof fn lemma_lex_prefix(a: Seq<char>, b: Seq<char>, i: int, av: bool)
    requires
        0 <= i <= a.len(),
    ensures
        match lex_from(a, i, av) {
            Ok(ta) => lex_from(a + seq![' '] + b, i, av) == prepend_tokens(
                ta,
                lex_from(a + seq![' '] + b, a.len() as int, state_after(ta, av)),
            ),
            Err(m) => lex_from(a + seq![' '] + b, i, av) == Err::<Seq<SpecToken>, Seq<char>>(m),
        },
    decreases a.len() - i,
{
    let s = a + seq![' '] + b;
    if i == a.len() {
        match lex_from(s, i, av) {
            Ok(r) => {
                assert(Seq::<SpecToken>::empty() + r =~= r);
            },
            Err(_) => {},
        }
        return ;
    }
    lemma_step_in_prefix(a, b, i, av);
    match lex_step(a, i, av) {
        LexStep::Skip(j) => {
            if i < j <= a.len() {
                lemma_lex_prefix(a, b, j, av);
            }
        },
        LexStep::Tok(t, j) => {
            if i < j <= a.len() {
                lemma_lex_prefix(a, b, j, ends_value(t));
                match lex_from(a, j, ends_value(t)) {
                    Ok(rest) => {
                        let ta = seq![t] + rest;
                        if rest.len() > 0 {
                            assert(ta.last() == rest.last());
                        }
                        match lex_from(s, a.len() as int, state_after(rest, ends_value(t))) {
                            Ok(r) => {
                                assert(seq![t] + (rest + r) =~= ta + r);
                            },
                            Err(_) => {},
                        }
                    },
                    Err(_) => {},
                }
            }
        },
        LexStep::Fail(_) => {},
    }
}

/// Lexing `a` followed by a space and `b` from inside `b` is lexing `b`.
proof fn lemma_lex_suffix(a: Seq<char>, b: Seq<char>, k: int, av: bool)
    requires
        0 <= k <= b.len(),
    ensures
        lex_from(a + seq![' '] + b, a.len() + 1 + k, av) == lex_from(b, k, av),
    decreases b.len() - k,
{
    if k < b.len() {
        lemma_step_in_suffix(a, b, k, av);
        match lex_step(b, k, av) {
            LexStep::Skip(j) => {
                if k < j <= b.len() {
                    lemma_lex_suffix(a, b, j, av);
                }
            },
            LexStep::Tok(t, j) => {
                if k < j <= b.len() {
                    lemma_lex_suffix(a, b, j, ends_value(t));
                }
            },
            LexStep::Fail(_) => {},
        }
    }
}

/// The state matters only where a negative literal leads.
proof fn lemma_lex_state(b: Seq<char>, k: int, av: bool)
    requires
        0 <= k,
        av ==> !leads_with_negative_literal(b, k),
    ensures
        lex_from(b, k, av) == lex_from(b, k, false),
    decreases b.len() - k,
{
    if k < b.len() {
        if is_space(b[k]) {
            lemma_lex_state(b, k + 1, av);
        }
    }
}

/// Lexing two texts joined by a space gives the tokens of the first and
/// then those of the second, or the first error; except where the first
/// ends in a literal or `)` and the second leads with a negative literal,
/// whose `-` then subtracts.
pub proof fn law_lex_concatenation(a: Seq<char>, b: Seq<char>)
    requires
        !(lex_spec(a) is Ok && state_after(lex_spec(a)->Ok_0, false)
            && leads_with_negative_literal(b, 0)),
    ensures
        lex_spec(a + seq![' '] + b) == match (lex_spec(a), lex_spec(b)) {
            (Ok(ta), Ok(tb)) => Ok::<Seq<SpecToken>, Seq<char>>(ta + tb),
            (Err(m), _) => Err(m),
            (Ok(_), Err(m)) => Err(m),
        },
{
    let s = a + seq![' '] + b;
    lemma_lex_prefix(a, b, 0, false);
    if let Ok(ta) = lex_spec(a) {
        let st = state_after(ta, false);
        assert(s[a.len() as int] == ' ');
        assert(lex_step(s, a.len() as int, st) == LexStep::Skip(a.len() as int + 1));
        lemma_lex_suffix(a, b, 0, st);
        lemma_lex_state(b, 0, st);
    }
}


/// The digit of a number below ten is one character, a digit of that value.
proof fn lemma_digit_text(d: nat)
    requires
        d < 10,
    ensures
        digit_text(d).len() == 1,
        is_digit(digit_text(d)[0]),
        digit_value(digit_text(d)[0]) == d,
{
    reveal_strlit("0");
    reveal_strlit("1");
    reveal_strlit("2");
    reveal_strlit("3");
    reveal_strlit("4");
    reveal_strlit("5");
    reveal_strlit("6");
    reveal_strlit("7");
    reveal_strlit("8");
    reveal_strlit("9");
}

/// The decimal text of a number is a nonempty run of digits whose value is
/// the number.
proof fn lemma_decimal_text(n: nat)
    ensures
        decimal_text(n).len() > 0,
        forall|k: int| 0 <= k < decimal_text(n).len() ==> is_digit(#[trigger] decimal_text(n)[k]),
        decimal(decimal_text(n)) == n,
    decreases n,
{
    if n < 10 {
        lemma_digit_text(n);
        let d = decimal_text(n);
        assert(d.drop_last().len() == 0);
        assert(decimal(d.drop_last()) == 0);
    } else {
        let h = decimal_text(n / 10);
        let l = digit_text(n % 10);
        lemma_decimal_text(n / 10);
        lemma_digit_text(n % 10);
        let d = decimal_text(n);
        assert(d == h + l);
        assert(d.drop_last() =~= h);
        assert(d.last() == l[0]);
        assert forall|k: int| 0 <= k < d.len() implies is_digit(#[trigger] d[k]) by {
            if k < h.len() {
                assert(d[k] == h[k]);
            } else {
                assert(d[k] == l[0]);
            }
        }
        assert((n / 10) * 10 + n % 10 == n);
    }
}

/// A run of digits reaches to the end of a text made only of digits.
proof fn lemma_digits_to_end(s: Seq<char>, i: int)
    requires
        0 <= i <= s.len(),
        forall|k: int| i <= k < s.len() ==> is_digit(#[trigger] s[k]),
    ensures
        digits_end(s, i) == s.len(),
    decreases s.len() - i,
{
    if i < s.len() {
        lemma_digits_to_end(s, i + 1);
    }
}

/// Lexing the decimal text of an integer gives that integer.
pub proof fn law_lex_int_text(n: i64)
    ensures
        lex_spec(int_text(n as int)) == Ok::<Seq<SpecToken>, Seq<char>>(seq![SpecToken::Int(n)]),
{
    let s = int_text(n as int);
    if n < 0 {
        let m = (-(n as int)) as nat;
        let d = decimal_text(m);
        lemma_decimal_text(m);
        reveal_strlit("-");
        assert(s == seq!['-'] + d);
        assert(s[0] == '-');
        assert(s[1] == d[0]);
        assert forall|k: int| 1 <= k < s.len() implies is_digit(#[trigger] s[k]) by {
            assert(s[k] == d[k - 1]);
        }
        lemma_digits_to_end(s, 1);
        assert(s.subrange(1, s.len() as int) =~= d);
        assert(starts_negative_literal(s, 0, false));
        assert(lex_step(s, 0, false) == LexStep::Tok(SpecToken::Int(n), s.len() as int));
    } else {
        let d = decimal_text(n as nat);
        lemma_decimal_text(n as nat);
        assert(s == d);
        lemma_digits_to_end(s, 0);
        assert(s.subrange(0, s.len() as int) =~= d);
        assert(is_digit(s[0]));
        assert(lex_step(s, 0, false) == LexStep::Tok(SpecToken::Int(n), s.len() as int));
    }
    assert(lex_from(s, s.len() as int, true) == Ok::<Seq<SpecToken>, Seq<char>>(seq![]));
    assert(seq![SpecToken::Int(n)] + Seq::<SpecToken>::empty() =~= seq![SpecToken::Int(n)]);
}


/// The run of identifier characters reaches to the end of a word.
proof fn lemma_ident_to_end(w: Seq<char>, i: int)
    requires
        0 <= i <= w.len(),
        forall|k: int| 0 <= k < w.len() ==> is_ident_char(#[trigger] w[k]),
    ensures
        ident_end(w, i) == w.len(),
    decreases w.len() - i,
{
    if i < w.len() {
        lemma_ident_to_end(w, i + 1);
    }
}

/// A word lexes to its one token.
pub(crate) proof fn lemma_lex_word(w: Seq<char>)
    requires
        w.len() > 0,
        is_ident_start(w[0]),
        forall|k: int| 0 <= k < w.len() ==> is_ident_char(#[trigger] w[k]),
    ensures
        lex_spec(w) == Ok::<Seq<SpecToken>, Seq<char>>(seq![word_token(w)]),
{
    lemma_ident_to_end(w, 0);
    assert(w.subrange(0, w.len() as int) =~= w);
    assert(lex_step(w, 0, false) == LexStep::Tok(word_token(w), w.len() as int));
    let t = word_token(w);
    assert(lex_from(w, w.len() as int, ends_value(t)) == Ok::<Seq<SpecToken>, Seq<char>>(seq![]));
    assert(seq![t] + Seq::<SpecToken>::empty() =~= seq![t]);
}


/// Words: a word made of letters, digits and `_` that starts with a letter
/// or `_` lexes to one identifier token of the whole word, unless it is one
/// of the seven keywords.
pub proof fn law_lex_identifier(w: Seq<char>)
    requires
        w.len() > 0,
        ('a' <= w[0] <= 'z') || ('A' <= w[0] <= 'Z') || w[0] == '_',
        forall|k: int|
            0 <= k < w.len() ==> ('a' <= #[trigger] w[k] <= 'z') || ('A' <= w[k] <= 'Z') || ('0'
                <= w[k] <= '9') || w[k] == '_',
        w != "let"@,
        w != "in"@,
        w != "if"@,
        w != "then"@,
        w != "else"@,
        w != "true"@,
        w != "false"@,
    ensures
        lex_spec(w) == Ok::<Seq<SpecToken>, Seq<char>>(seq![SpecToken::Ident(w)]),
{
    reveal_strlit("let");
    reveal_strlit("in");
    reveal_strlit("if");
    reveal_strlit("then");
    reveal_strlit("else");
    reveal_strlit("true");
    reveal_strlit("false");
    assert forall|k: int| 0 <= k < w.len() implies is_ident_char(#[trigger] w[k]) by {}
    lemma_lex_word(w);
    assert(w != seq!['l', 'e', 't']) by {
        assert("let"@ =~= seq!['l', 'e', 't']);
    }
    assert(w != seq!['i', 'n']) by {
        assert("in"@ =~= seq!['i', 'n']);
    }
    assert(w != seq!['i', 'f']) by {
        assert("if"@ =~= seq!['i', 'f']);
    }
    assert(w != seq!['t', 'h', 'e', 'n']) by {
        assert("then"@ =~= seq!['t', 'h', 'e', 'n']);
    }
    assert(w != seq!['e', 'l', 's', 'e']) by {
        assert("else"@ =~= seq!['e', 'l', 's', 'e']);
    }
    assert(w != seq!['t', 'r', 'u', 'e']) by {
        assert("true"@ =~= seq!['t', 'r', 'u', 'e']);
    }
    assert(w != seq!['f', 'a', 'l', 's', 'e']) by {
        assert("false"@ =~= seq!['f', 'a', 'l', 's', 'e']);
    }
}

/// Keywords: each of the seven keywords lexes to its own token.
pub proof fn law_lex_keywords()
    ensures
        lex_spec("let"@) == Ok::<Seq<SpecToken>, Seq<char>>(seq![SpecToken::Let]),
        lex_spec("in"@) == Ok::<Seq<SpecToken>, Seq<char>>(seq![SpecToken::In]),
        lex_spec("if"@) == Ok::<Seq<SpecToken>, Seq<char>>(seq![SpecToken::If]),
        lex_spec("then"@) == Ok::<Seq<SpecToken>, Seq<char>>(seq![SpecToken::Then]),
        lex_spec("else"@) == Ok::<Seq<SpecToken>, Seq<char>>(seq![SpecToken::Else]),
        lex_spec("true"@) == Ok::<Seq<SpecToken>, Seq<char>>(seq![SpecToken::Bool(true)]),
        lex_spec("false"@) == Ok::<Seq<SpecToken>, Seq<char>>(seq![SpecToken::Bool(false)]),
{
    reveal_strlit("let");
    reveal_strlit("in");
    reveal_strlit("if");
    reveal_strlit("then");
    reveal_strlit("else");
    reveal_strlit("true");
    reveal_strlit("false");
    assert("let"@ =~= seq!['l', 'e', 't']);
    assert("in"@ =~= seq!['i', 'n']);
    assert("if"@ =~= seq!['i', 'f']);
    assert("then"@ =~= seq!['t', 'h', 'e', 'n']);
    assert("else"@ =~= seq!['e', 'l', 's', 'e']);
    assert("true"@ =~= seq!['t', 'r', 'u', 'e']);
    assert("false"@ =~= seq!['f', 'a', 'l', 's', 'e']);
    lemma_lex_word("let"@);
    lemma_lex_word("in"@);
    lemma_lex_word("if"@);
    lemma_lex_word("then"@);
    lemma_lex_word("else"@);
    lemma_lex_word("true"@);
    lemma_lex_word("false"@);
}


/// A text whose first step reads the whole text as one token.
proof fn lemma_lex_one_token(s: Seq<char>, t: SpecToken)
    requires
        s.len() > 0,
        lex_step(s, 0, false) == LexStep::Tok(t, s.len() as int),
    ensures
        lex_spec(s) == Ok::<Seq<SpecToken>, Seq<char>>(seq![t]),
{
    assert(lex_from(s, s.len() as int, ends_value(t)) == Ok::<Seq<SpecToken>, Seq<char>>(seq![]));
    assert(seq![t] + Seq::<SpecToken>::empty() =~= seq![t]);
}

/// Punctuation: each operator and bracket lexes to its token; `==` is one
/// token and `=` another, `->` is one token and `-` another.
pub proof fn law_lex_symbols()
    ensures
        lex_spec("("@) == Ok::<Seq<SpecToken>, Seq<char>>(seq![SpecToken::LParen]),
        lex_spec(")"@) == Ok::<Seq<SpecToken>, Seq<char>>(seq![SpecToken::RParen]),
        lex_spec(":"@) == Ok::<Seq<SpecToken>, Seq<char>>(seq![SpecToken::Colon]),
        lex_spec("+"@) == Ok::<Seq<SpecToken>, Seq<char>>(seq![SpecToken::Plus]),
        lex_spec("-"@) == Ok::<Seq<SpecToken>, Seq<char>>(seq![SpecToken::Minus]),
        lex_spec("*"@) == Ok::<Seq<SpecToken>, Seq<char>>(seq![SpecToken::Star]),
        lex_spec("<"@) == Ok::<Seq<SpecToken>, Seq<char>>(seq![SpecToken::Lt]),
        lex_spec("="@) == Ok::<Seq<SpecToken>, Seq<char>>(seq![SpecToken::Assign]),
        lex_spec("=="@) == Ok::<Seq<SpecToken>, Seq<char>>(seq![SpecToken::EqEq]),
        lex_spec("->"@) == Ok::<Seq<SpecToken>, Seq<char>>(seq![SpecToken::Arrow]),
        lex_spec("\\"@) == Ok::<Seq<SpecToken>, Seq<char>>(seq![SpecToken::Lambda]),
{
    reveal_strlit("(");
    reveal_strlit(")");
    reveal_strlit(":");
    reveal_strlit("+");
    reveal_strlit("-");
    reveal_strlit("*");
    reveal_strlit("<");
    reveal_strlit("=");
    reveal_strlit("==");
    reveal_strlit("->");
    reveal_strlit("\\");
    lemma_lex_one_token("("@, SpecToken::LParen);
    lemma_lex_one_token(")"@, SpecToken::RParen);
    lemma_lex_one_token(":"@, SpecToken::Colon);
    lemma_lex_one_token("+"@, SpecToken::Plus);
    lemma_lex_one_token("-"@, SpecToken::Minus);
    lemma_lex_one_token("*"@, SpecToken::Star);
    lemma_lex_one_token("<"@, SpecToken::Lt);
    lemma_lex_one_token("="@, SpecToken::Assign);
    lemma_lex_one_token("=="@, SpecToken::EqEq);
    lemma_lex_one_token("->"@, SpecToken::Arrow);
    lemma_lex_one_token("\\"@, SpecToken::Lambda);
}

} // verus!
