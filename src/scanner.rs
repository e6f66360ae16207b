use vstd::prelude::*;
use crate::error::{LexErrorKind, LoxResult};
use crate::number::{Number, SCALE};
use crate::text::{chars_of, string_of_range};
use crate::token::{Object, Token, TokenType};
use crate::value::Value;

verus! {

/// What a token is, mathematically.
pub ghost struct TokenModel {
    pub ttype: TokenType,
    pub lexeme: Seq<char>,
    pub literal: Option<Value>,
    pub line: int,
}

impl View for Token {
    type V = TokenModel;

    open spec fn view(&self) -> TokenModel {
        TokenModel {
            ttype: self.ttype,
            lexeme: self.lexeme@,
            literal: match self.literal {
                Some(o) => Some(o@),
                None => None,
            },
            line: self.line as int,
        }
    }
}

pub open spec fn is_digit(c: char) -> bool {
    '0' <= c && c <= '9'
}

pub open spec fn is_alpha(c: char) -> bool {
    ('a' <= c && c <= 'z') || ('A' <= c && c <= 'Z') || c == '_'
}

pub open spec fn is_alphanumeric(c: char) -> bool {
    is_alpha(c) || is_digit(c)
}

/// The end of the run of digits that starts at `i`.
pub open spec fn digits_end(src: Seq<char>, i: int) -> int
    decreases src.len() - i,
{
    if 0 <= i < src.len() && is_digit(src[i]) {
        digits_end(src, i + 1)
    } else {
        i
    }
}

/// The end of the run of letters, digits and underscores that starts at `i`.
pub open spec fn word_end(src: Seq<char>, i: int) -> int
    decreases src.len() - i,
{
    if 0 <= i < src.len() && is_alphanumeric(src[i]) {
        word_end(src, i + 1)
    } else {
        i
    }
}

/// The position of the first `"` at or after `i`, or the end of the text.
pub open spec fn quote_end(src: Seq<char>, i: int) -> int
    decreases src.len() - i,
{
    if 0 <= i < src.len() && src[i] != '"' {
        quote_end(src, i + 1)
    } else {
        i
    }
}

/// The position of the first line break at or after `i`, or the end of the text.
pub open spec fn line_end(src: Seq<char>, i: int) -> int
    decreases src.len() - i,
{
    if 0 <= i < src.len() && src[i] != '\n' {
        line_end(src, i + 1)
    } else {
        i
    }
}

/// How many line breaks `src[a..b]` holds.
pub open spec fn newlines(src: Seq<char>, a: int, b: int) -> int
    decreases b - a,
{
    if a >= b {
        0
    } else {
        newlines(src, a, b - 1) + if src[b - 1] == '\n' {
            1int
        } else {
            0int
        }
    }
}

/// The value of a run of decimal digits.
pub open spec fn digits_value(s: Seq<char>) -> int
    decreases s.len(),
{
    if s.len() == 0 {
        0
    } else {
        digits_value(s.drop_last()) * 10 + (s.last() as int - '0' as int)
    }
}

pub open spec fn pow10(k: nat) -> int
    decreases k,
{
    if k == 0 {
        1
    } else {
        10 * pow10((k - 1) as nat)
    }
}

/// The number written with whole digits `w` and fraction digits `f`, in millionths,
/// when it is held exactly by a number.
pub open spec fn literal_units(w: Seq<char>, f: Seq<char>) -> Option<int> {
    if f.len() > 6 {
        None
    } else {
        let u = digits_value(w) * SCALE as int + digits_value(f) * pow10((6 - f.len()) as nat);
        if u <= i64::MAX {
            Some(u)
        } else {
            None
        }
    }
}

/// The kind of a word: a reserved word, or else an identifier.
pub open spec fn keyword_type(w: Seq<char>) -> TokenType {
    if w == seq!['a', 'n', 'd'] {
        TokenType::And
    } else if w == seq!['c', 'l', 'a', 's', 's'] {
        TokenType::Class
    } else if w == seq!['e', 'l', 's', 'e'] {
        TokenType::Else
    } else if w == seq!['f', 'a', 'l', 's', 'e'] {
        TokenType::False
    } else if w == seq!['f', 'o', 'r'] {
        TokenType::For
    } else if w == seq!['f', 'u', 'n'] {
        TokenType::Fun
    } else if w == seq!['i', 'f'] {
        TokenType::If
    } else if w == seq!['n', 'i', 'l'] {
        TokenType::Nil
    } else if w == seq!['o', 'r'] {
        TokenType::Or
    } else if w == seq!['p', 'r', 'i', 'n', 't'] {
        TokenType::Print
    } else if w == seq!['r', 'e', 't', 'u', 'r', 'n'] {
        TokenType::Return
    } else if w == seq!['s', 'u', 'p', 'e', 'r'] {
        TokenType::Super
    } else if w == seq!['t', 'h', 'i', 's'] {
        TokenType::This
    } else if w == seq!['t', 'r', 'u', 'e'] {
        TokenType::True
    } else if w == seq!['v', 'a', 'r'] {
        TokenType::Var
    } else if w == seq!['w', 'h', 'i', 'l', 'e'] {
        TokenType::While
    } else {
        TokenType::Identifier
    }
}

/// The kind of a one-character token.
pub open spec fn single_kind(c: char) -> Option<TokenType> {
    if c == '(' {
        Some(TokenType::LeftParen)
    } else if c == ')' {
        Some(TokenType::RightParen)
    } else if c == '{' {
        Some(TokenType::LeftBrace)
    } else if c == '}' {
        Some(TokenType::RightBrace)
    } else if c == ',' {
        Some(TokenType::Comma)
    } else if c == '.' {
        Some(TokenType::Dot)
    } else if c == '-' {
        Some(TokenType::Minus)
    } else if c == '+' {
        Some(TokenType::Plus)
    } else if c == ';' {
        Some(TokenType::Semicolon)
    } else if c == '*' {
        Some(TokenType::Star)
    } else {
        None
    }
}

/// For `!`, `=`, `<` and `>`: the kind alone and the kind followed by `=`.
pub open spec fn pair_kinds(c: char) -> Option<(TokenType, TokenType)> {
    if c == '!' {
        Some((TokenType::Bang, TokenType::BangEqual))
    } else if c == '=' {
        Some((TokenType::Assign, TokenType::Equals))
    } else if c == '<' {
        Some((TokenType::Less, TokenType::LessEqual))
    } else if c == '>' {
        Some((TokenType::Greater, TokenType::GreaterEqual))
    } else {
        None
    }
}

/// One step of the scanner: where it goes on, on which line, and the token or
/// the error it produced, if any.
pub ghost struct Step {
    pub next: int,
    pub line: int,
    pub token: Option<TokenModel>,
    pub error: Option<LexErrorKind>,
}

pub open spec fn plain(src: Seq<char>, k: TokenType, a: int, b: int, line: int) -> Step {
    Step {
        next: b,
        line,
        token: Some(TokenModel { ttype: k, lexeme: src.subrange(a, b), literal: None, line }),
        error: None,
    }
}

pub open spec fn skip(next: int, line: int) -> Step {
    Step { next, line, token: None, error: None }
}

pub open spec fn failure(next: int, line: int, k: LexErrorKind) -> Step {
    Step { next, line, token: None, error: Some(k) }
}

pub open spec fn string_step(src: Seq<char>, pos: int, line: int) -> Step {
    let e = quote_end(src, pos + 1);
    let l = line + newlines(src, pos + 1, e);
    if e >= src.len() {
        failure(e, l, LexErrorKind::UnterminatedString)
    } else {
        Step {
            next: e + 1,
            line: l,
            token: Some(
                TokenModel {
                    ttype: TokenType::String,
                    lexeme: src.subrange(pos, e + 1),
                    literal: Some(Value::Text(src.subrange(pos + 1, e))),
                    line: l,
                },
            ),
            error: None,
        }
    }
}

pub open spec fn number_token(src: Seq<char>, pos: int, end: int, w: Seq<char>, f: Seq<char>, line: int) -> Step {
    match literal_units(w, f) {
        Some(u) => Step {
            next: end,
            line,
            token: Some(
                TokenModel {
                    ttype: TokenType::Number,
                    lexeme: src.subrange(pos, end),
                    literal: Some(Value::Number(u)),
                    line,
                },
            ),
            error: None,
        },
        None => failure(end, line, LexErrorKind::NumberOutOfRange),
    }
}

pub open spec fn number_step(src: Seq<char>, pos: int, line: int) -> Step {
    let e1 = digits_end(src, pos);
    if e1 + 1 < src.len() && src[e1] == '.' && is_digit(src[e1 + 1]) {
        let e2 = digits_end(src, e1 + 1);
        if e2 < src.len() && src[e2] == '.' {
            failure(e2, line, LexErrorKind::MalformedNumber)
        } else {
            number_token(src, pos, e2, src.subrange(pos, e1), src.subrange(e1 + 1, e2), line)
        }
    } else {
        number_token(src, pos, e1, src.subrange(pos, e1), Seq::empty(), line)
    }
}

/// What the scanner does at position `pos` of `src`, on line `line`.
pub open spec fn step(src: Seq<char>, pos: int, line: int) -> Step {
    let c = src[pos];
    if single_kind(c) is Some {
        plain(src, single_kind(c)->0, pos, pos + 1, line)
    } else if pair_kinds(c) is Some {
        let (alone, with_equal) = pair_kinds(c)->0;
        if pos + 1 < src.len() && src[pos + 1] == '=' {
            plain(src, with_equal, pos, pos + 2, line)
        } else {
            plain(src, alone, pos, pos + 1, line)
        }
    } else if c == '/' {
        if pos + 1 < src.len() && src[pos + 1] == '/' {
            skip(line_end(src, pos + 2), line)
        } else {
            plain(src, TokenType::Slash, pos, pos + 1, line)
        }
    } else if c == '\n' {
        skip(pos + 1, line + 1)
    } else if c == ' ' || c == '\r' || c == '\t' {
        skip(pos + 1, line)
    } else if c == '"' {
        string_step(src, pos, line)
    } else if is_digit(c) {
        number_step(src, pos, line)
    } else if is_alpha(c) {
        let e = word_end(src, pos + 1);
        plain(src, keyword_type(src.subrange(pos, e)), pos, e, line)
    } else {
        failure(pos + 1, line, LexErrorKind::UnexpectedCharacter)
    }
}

/// Everything the scanner produces from position `pos` on: the tokens, the first
/// error with its line, and the line it ends on.
pub ghost struct Scan {
    pub tokens: Seq<TokenModel>,
    pub error: Option<(int, LexErrorKind)>,
    pub line: int,
}

pub open spec fn scan_from(src: Seq<char>, pos: int, line: int) -> Scan
    decreases src.len() - pos,
{
    if pos < 0 || pos >= src.len() {
        Scan { tokens: Seq::empty(), error: None, line }
    } else {
        let s = step(src, pos, line);
        if s.next <= pos || s.next > src.len() {
            Scan { tokens: Seq::empty(), error: None, line }
        } else {
            let rest = scan_from(src, s.next, s.line);
            Scan {
                tokens: match s.token {
                    Some(t) => seq![t] + rest.tokens,
                    None => rest.tokens,
                },
                error: match s.error {
                    Some(k) => Some((s.line, k)),
                    None => rest.error,
                },
                line: rest.line,
            }
        }
    }
}

/// The result of scanning a whole source text: its tokens closed by the end-of-input
/// token, or the first error.
pub open spec fn scan_spec(src: Seq<char>) -> Result<Seq<TokenModel>, (int, LexErrorKind)> {
    let s = scan_from(src, 0, 1);
    match s.error {
        Some(e) => Err(e),
        None => Ok(
            s.tokens.push(TokenModel { ttype: TokenType::Eof, lexeme: Seq::empty(), literal: None, line: s.line }),
        ),
    }
}

proof fn lemma_newlines_le(src: Seq<char>, a: int, b: int)
    ensures
        0 <= newlines(src, a, b),
        a <= b ==> newlines(src, a, b) <= b - a,
    decreases b - a,
{
    if a < b {
        lemma_newlines_le(src, a, b - 1);
    }
}

fn is_digit_exec(c: char) -> (r: bool)
    ensures
        r == is_digit(c),
{
    '0' <= c && c <= '9'
}

fn is_alpha_exec(c: char) -> (r: bool)
    ensures
        r == is_alpha(c),
{
    ('a' <= c && c <= 'z') || ('A' <= c && c <= 'Z') || c == '_'
}

fn single_kind_exec(c: char) -> (r: Option<TokenType>)
    ensures
        r == single_kind(c),
{
    if c == '(' {
        Some(TokenType::LeftParen)
    } else if c == ')' {
        Some(TokenType::RightParen)
    } else if c == '{' {
        Some(TokenType::LeftBrace)
    } else if c == '}' {
        Some(TokenType::RightBrace)
    } else if c == ',' {
        Some(TokenType::Comma)
    } else if c == '.' {
        Some(TokenType::Dot)
    } else if c == '-' {
        Some(TokenType::Minus)
    } else if c == '+' {
        Some(TokenType::Plus)
    } else if c == ';' {
        Some(TokenType::Semicolon)
    } else if c == '*' {
        Some(TokenType::Star)
    } else {
        None
    }
}

fn pair_kinds_exec(c: char) -> (r: Option<(TokenType, TokenType)>)
    ensures
        r == pair_kinds(c),
{
    if c == '!' {
        Some((TokenType::Bang, TokenType::BangEqual))
    } else if c == '=' {
        Some((TokenType::Assign, TokenType::Equals))
    } else if c == '<' {
        Some((TokenType::Less, TokenType::LessEqual))
    } else if c == '>' {
        Some((TokenType::Greater, TokenType::GreaterEqual))
    } else {
        None
    }
}

/// Whether `src[a..b]` spells `w`.
fn range_is(src: &Vec<char>, a: usize, b: usize, w: &str) -> (r: bool)
    requires
        a <= b <= src.len(),
    ensures
        r == (src@.subrange(a as int, b as int) == w@),
{
    let cs = chars_of(w);
    if b - a != cs.len() {
        return false;
    }
    let mut i: usize = 0;
    while i < cs.len()
        invariant
            0 <= i <= cs.len(),
            b - a == cs.len(),
            a <= b <= src.len(),
            cs@ == w@,
            forall|j: int| 0 <= j < i ==> src@[a + j] == cs@[j],
        decreases cs.len() - i,
    {
        if src[a + i] != cs[i] {
            assert(src@.subrange(a as int, b as int)[i as int] != w@[i as int]);
            return false;
        }
        i = i + 1;
    }
    assert(src@.subrange(a as int, b as int) =~= w@);
    true
}

/// The kind of the word `src[a..b]`: a reserved word, or else an identifier.
fn check_keyword(src: &Vec<char>, a: usize, b: usize) -> (r: TokenType)
    requires
        a <= b <= src.len(),
    ensures
        r == keyword_type(src@.subrange(a as int, b as int)),
{
    proof {
        reveal_strlit("and");
        assert("and"@ =~= seq!['a', 'n', 'd']);
        reveal_strlit("class");
        assert("class"@ =~= seq!['c', 'l', 'a', 's', 's']);
        reveal_strlit("else");
        assert("else"@ =~= seq!['e', 'l', 's', 'e']);
        reveal_strlit("false");
        assert("false"@ =~= seq!['f', 'a', 'l', 's', 'e']);
        reveal_strlit("for");
        assert("for"@ =~= seq!['f', 'o', 'r']);
        reveal_strlit("fun");
        assert("fun"@ =~= seq!['f', 'u', 'n']);
        reveal_strlit("if");
        assert("if"@ =~= seq!['i', 'f']);
        reveal_strlit("nil");
        assert("nil"@ =~= seq!['n', 'i', 'l']);
        reveal_strlit("or");
        assert("or"@ =~= seq!['o', 'r']);
        reveal_strlit("print");
        assert("print"@ =~= seq!['p', 'r', 'i', 'n', 't']);
        reveal_strlit("return");
        assert("return"@ =~= seq!['r', 'e', 't', 'u', 'r', 'n']);
        reveal_strlit("super");
        assert("super"@ =~= seq!['s', 'u', 'p', 'e', 'r']);
        reveal_strlit("this");
        assert("this"@ =~= seq!['t', 'h', 'i', 's']);
        reveal_strlit("true");
        assert("true"@ =~= seq!['t', 'r', 'u', 'e']);
        reveal_strlit("var");
        assert("var"@ =~= seq!['v', 'a', 'r']);
        reveal_strlit("while");
        assert("while"@ =~= seq!['w', 'h', 'i', 'l', 'e']);
    }
    if range_is(src, a, b, "and") {
        TokenType::And
    } else if range_is(src, a, b, "class") {
        TokenType::Class
    } else if range_is(src, a, b, "else") {
        TokenType::Else
    } else if range_is(src, a, b, "false") {
        TokenType::False
    } else if range_is(src, a, b, "for") {
        TokenType::For
    } else if range_is(src, a, b, "fun") {
        TokenType::Fun
    } else if range_is(src, a, b, "if") {
        TokenType::If
    } else if range_is(src, a, b, "nil") {
        TokenType::Nil
    } else if range_is(src, a, b, "or") {
        TokenType::Or
    } else if range_is(src, a, b, "print") {
        TokenType::Print
    } else if range_is(src, a, b, "return") {
        TokenType::Return
    } else if range_is(src, a, b, "super") {
        TokenType::Super
    } else if range_is(src, a, b, "this") {
        TokenType::This
    } else if range_is(src, a, b, "true") {
        TokenType::True
    } else if range_is(src, a, b, "var") {
        TokenType::Var
    } else if range_is(src, a, b, "while") {
        TokenType::While
    } else {
        TokenType::Identifier
    }
}

fn digits_end_exec(src: &Vec<char>, i: usize) -> (e: usize)
    requires
        i <= src.len(),
    ensures
        e == digits_end(src@, i as int),
        i <= e <= src.len(),
        forall|j: int| i <= j < e ==> is_digit(#[trigger] src@[j]),
{
    let mut j = i;
    while j < src.len() && is_digit_exec(src[j])
        invariant
            i <= j <= src.len(),
            digits_end(src@, i as int) == digits_end(src@, j as int),
            forall|k: int| i <= k < j ==> is_digit(#[trigger] src@[k]),
        decreases src.len() - j,
    {
        j = j + 1;
    }
    j
}

fn word_end_exec(src: &Vec<char>, i: usize) -> (e: usize)
    requires
        i <= src.len(),
    ensures
        e == word_end(src@, i as int),
        i <= e <= src.len(),
{
    let mut j = i;
    while j < src.len() && (is_alpha_exec(src[j]) || is_digit_exec(src[j]))
        invariant
            i <= j <= src.len(),
            word_end(src@, i as int) == word_end(src@, j as int),
        decreases src.len() - j,
    {
        j = j + 1;
    }
    j
}

fn line_end_exec(src: &Vec<char>, i: usize) -> (e: usize)
    requires
        i <= src.len(),
    ensures
        e == line_end(src@, i as int),
        i <= e <= src.len(),
{
    let mut j = i;
    while j < src.len() && src[j] != '\n'
        invariant
            i <= j <= src.len(),
            line_end(src@, i as int) == line_end(src@, j as int),
        decreases src.len() - j,
    {
        j = j + 1;
    }
    j
}

/// The value of the digits `src[a..b]`, or `None` once it exceeds `limit`.
fn digits_value_upto(src: &Vec<char>, a: usize, b: usize, limit: u64) -> (r: Option<u64>)
    requires
        a <= b <= src.len(),
        9 <= limit < 0x1000_0000_0000_0000,
        forall|j: int| a <= j < b ==> is_digit(#[trigger] src@[j]),
    ensures
        r matches Some(v) ==> v == digits_value(src@.subrange(a as int, b as int)) && v <= limit,
        r is None ==> digits_value(src@.subrange(a as int, b as int)) > limit,
{
    let mut v: u64 = 0;
    let mut i: usize = a;
    while i < b
        invariant
            a <= i <= b <= src.len(),
            9 <= limit < 0x1000_0000_0000_0000,
            forall|j: int| a <= j < b ==> is_digit(#[trigger] src@[j]),
            v == digits_value(src@.subrange(a as int, i as int)),
            v <= limit,
        decreases b - i,
    {
        let d = (src[i] as u32 - '0' as u32) as u64;
        proof {
            let p = src@.subrange(a as int, i as int + 1);
            assert(p.drop_last() == src@.subrange(a as int, i as int));
            assert(p.last() == src@[i as int]);
        }
        if v > (limit - d) / 10 {
            proof {
                let p = src@.subrange(a as int, i as int + 1);
                assert(digits_value(p) > limit) by (nonlinear_arith)
                    requires
                        digits_value(p) == v * 10 + d,
                        v > (limit - d) / 10,
                        d <= 9,
                        limit >= d,
                ;
                lemma_grows(src@, a as int, i as int + 1, b as int, limit as int);
            }
            return None;
        }
        v = v * 10 + d;
        i = i + 1;
    }
    Some(v)
}

/// A run of digits only grows in value as it is extended.
proof fn lemma_grows(src: Seq<char>, a: int, i: int, b: int, limit: int)
    requires
        0 <= a <= i <= b <= src.len(),
        forall|j: int| a <= j < b ==> is_digit(#[trigger] src[j]),
        digits_value(src.subrange(a, i)) > limit,
        limit >= 0,
    ensures
        digits_value(src.subrange(a, b)) > limit,
    decreases b - i,
{
    if i < b {
        let p = src.subrange(a, i + 1);
        assert(p.drop_last() == src.subrange(a, i));
        assert(is_digit(src[i]));
        lemma_grows(src, a, i + 1, b, limit);
    }
}


proof fn lemma_digits_value_bound(s: Seq<char>)
    requires
        forall|i: int| 0 <= i < s.len() ==> is_digit(#[trigger] s[i]),
    ensures
        0 <= digits_value(s) < pow10(s.len()),
    decreases s.len(),
{
    if s.len() > 0 {
        let p = s.drop_last();
        assert forall|i: int| 0 <= i < p.len() implies is_digit(#[trigger] p[i]) by {
            assert(p[i] == s[i]);
        }
        lemma_digits_value_bound(p);
        assert(is_digit(s[s.len() - 1]));
        let d = s.last() as int - '0' as int;
        assert(digits_value(s) == digits_value(p) * 10 + d);
        assert(pow10(s.len()) == 10 * pow10(p.len()));
        assert(digits_value(s) < pow10(s.len())) by (nonlinear_arith)
            requires
                digits_value(s) == digits_value(p) * 10 + d,
                0 <= d <= 9,
                0 <= digits_value(p) < pow10(p.len()),
                pow10(s.len()) == 10 * pow10(p.len()),
        ;
    }
}

fn pow10_exec(k: usize) -> (r: u64)
    requires
        k <= 6,
    ensures
        r == pow10(k as nat),
        1 <= r <= 1000000,
{
    proof {
        reveal_with_fuel(pow10, 7);
    }
    if k == 0 {
        1
    } else if k == 1 {
        10
    } else if k == 2 {
        100
    } else if k == 3 {
        1000
    } else if k == 4 {
        10000
    } else if k == 5 {
        100000
    } else {
        1000000
    }
}

/// The number written with whole digits `src[wa..wb]` and fraction digits `src[fa..fb]`.
fn literal_units_exec(src: &Vec<char>, wa: usize, wb: usize, fa: usize, fb: usize) -> (r: Option<i64>)
    requires
        wa <= wb <= src.len(),
        fa <= fb <= src.len(),
        forall|j: int| wa <= j < wb ==> is_digit(#[trigger] src@[j]),
        forall|j: int| fa <= j < fb ==> is_digit(#[trigger] src@[j]),
    ensures
        r matches Some(u) ==> literal_units(src@.subrange(wa as int, wb as int), src@.subrange(fa as int, fb as int)) == Some(u as int),
        r is None ==> literal_units(src@.subrange(wa as int, wb as int), src@.subrange(fa as int, fb as int)) is None,
{
    let ghost w = src@.subrange(wa as int, wb as int);
    let ghost f = src@.subrange(fa as int, fb as int);
    if fb - fa > 6 {
        return None;
    }
    proof {
        assert forall|i: int| 0 <= i < f.len() implies is_digit(#[trigger] f[i]) by {
            assert(f[i] == src@[fa + i]);
        }
        lemma_digits_value_bound(f);
    }
    let scale = pow10_exec(6 - (fb - fa));
    let whole = match digits_value_upto(src, wa, wb, 9223372036854) {
        Some(v) => v,
        None => {
            proof {
                let u = digits_value(w) * SCALE as int + digits_value(f) * pow10((6 - f.len()) as nat);
                assert(u > i64::MAX) by (nonlinear_arith)
                    requires
                        u == digits_value(w) * 1000000 + digits_value(f) * scale,
                        digits_value(w) > 9223372036854,
                        digits_value(f) >= 0,
                        scale >= 1,
                ;
            }
            return None;
        },
    };
    let frac = match digits_value_upto(src, fa, fb, 999999) {
        Some(v) => v,
        None => {
            proof {
                reveal_with_fuel(pow10, 7);
                assert(pow10(f.len()) <= 1000000);
            }
            return None;
        },
    };
    assert(whole as int * 1000000 + frac as int * scale as int <= 9223372036854 * 1000000 + 999999 * 1000000) by (nonlinear_arith)
        requires
            whole <= 9223372036854,
            frac <= 999999,
            scale <= 1000000,
    ;
    let u: i128 = whole as i128 * 1000000 + frac as i128 * scale as i128;
    if u > i64::MAX as i128 {
        None
    } else {
        Some(u as i64)
    }
}

/// The result of scanning, as the model gives it: the tokens, or the first error.
pub open spec fn scanned(m: Result<Seq<TokenModel>, (int, LexErrorKind)>, r: Result<Vec<Token>, LoxResult>) -> bool {
    match m {
        Ok(ts) => r matches Ok(v) && v@.map_values(|t: Token| t@) == ts,
        Err((l, k)) => r == Err::<Vec<Token>, LoxResult>(LoxResult::Error { line: l as usize, kind: k }),
    }
}

/// One step of the scanner, as the model gives it.
pub open spec fn stepped(st: Step, r: Result<Option<Token>, LoxResult>) -> bool {
    match r {
        Ok(Some(t)) => st.token == Some(t@) && st.error is None,
        Ok(None) => st.token is None && st.error is None,
        Err(e) => st.token is None && (st.error matches Some(k) && e == LoxResult::Error { line: st.line as usize, kind: k }),
    }
}

pub struct Scanner {
    pub source: Vec<char>,
    pub start: usize,
    pub current: usize,
    pub line: usize,
}

impl Scanner {
    pub open spec fn ready(&self) -> bool {
        &&& self.current <= self.source.len()
        &&& self.line <= self.current + 1
        &&& self.source.len() < usize::MAX - 1
    }

    pub fn new(source: &str) -> (s: Scanner)
        ensures
            s.source@ == source@,
            s.start == 0,
            s.current == 0,
            s.line == 1,
    {
        Scanner { source: chars_of(source), start: 0, current: 0, line: 1 }
    }

    fn token(&self, ttype: TokenType, a: usize, b: usize, literal: Option<Object>, line: usize) -> (t: Token)
        requires
            a <= b <= self.source.len(),
        ensures
            t.ttype == ttype,
            t.lexeme@ == self.source@.subrange(a as int, b as int),
            t.literal == literal,
            t.line == line,
    {
        Token::new(ttype, string_of_range(&self.source, a, b), literal, line)
    }

    fn string(&mut self) -> (r: Result<Option<Token>, LoxResult>)
        requires
            old(self).ready(),
            old(self).current < old(self).source.len(),
            old(self).source@[old(self).current as int] == '"',
        ensures
            final(self).source@ == old(self).source@,
            final(self).ready(),
            old(self).current < final(self).current,
            ({
                let st = string_step(old(self).source@, old(self).current as int, old(self).line as int);
                &&& final(self).current == st.next
                &&& final(self).line == st.line
                &&& stepped(st, r)
            }),
    {
        let pos = self.current;
        let len = self.source.len();
        let mut j: usize = pos + 1;
        let mut l: usize = self.line;
        while j < len && self.source[j] != '"'
            invariant
                pos + 1 <= j <= len,
                len == self.source.len(),
                old(self).source@ == self.source@,
                old(self).current == pos,
                self.ready(),
                quote_end(self.source@, pos + 1) == quote_end(self.source@, j as int),
                l == old(self).line + newlines(self.source@, pos + 1, j as int),
                l <= j,
            decreases len - j,
        {
            if self.source[j] == '\n' {
                l = l + 1;
            }
            j = j + 1;
        }
        self.line = l;
        if j >= len {
            self.current = j;
            return Err(LoxResult::error(l, LexErrorKind::UnterminatedString));
        }
        self.current = j + 1;
        let value = string_of_range(&self.source, pos + 1, j);
        let t = self.token(TokenType::String, pos, j + 1, Some(Object::Str(value)), l);
        Ok(Some(t))
    }

    fn finish_number(&mut self, pos: usize, e1: usize, fa: usize, fb: usize) -> (r: Result<Option<Token>, LoxResult>)
        requires
            old(self).ready(),
            old(self).current == pos,
            pos < e1 <= fa <= fb <= old(self).source.len(),
            forall|j: int| pos <= j < e1 ==> is_digit(#[trigger] old(self).source@[j]),
            forall|j: int| fa <= j < fb ==> is_digit(#[trigger] old(self).source@[j]),
        ensures
            final(self).source@ == old(self).source@,
            final(self).ready(),
            ({
                let src = old(self).source@;
                let st = number_token(src, pos as int, fb as int, src.subrange(pos as int, e1 as int),
                    src.subrange(fa as int, fb as int), old(self).line as int);
                &&& final(self).current == st.next
                &&& final(self).line == st.line
                &&& stepped(st, r)
            }),
    {
        let line = self.line;
        self.current = fb;
        match literal_units_exec(&self.source, pos, e1, fa, fb) {
            Some(u) => {
                let t = self.token(TokenType::Number, pos, fb, Some(Object::Num(Number::from_units(u))), line);
                Ok(Some(t))
            },
            None => Err(LoxResult::error(line, LexErrorKind::NumberOutOfRange)),
        }
    }

    fn number(&mut self) -> (r: Result<Option<Token>, LoxResult>)
        requires
            old(self).ready(),
            old(self).current < old(self).source.len(),
            is_digit(old(self).source@[old(self).current as int]),
        ensures
            final(self).source@ == old(self).source@,
            final(self).ready(),
            old(self).current < final(self).current,
            ({
                let st = number_step(old(self).source@, old(self).current as int, old(self).line as int);
                &&& final(self).current == st.next
                &&& final(self).line == st.line
                &&& stepped(st, r)
            }),
    {
        let pos = self.current;
        let len = self.source.len();
        let e1 = digits_end_exec(&self.source, pos + 1);
        if e1 + 1 < len && self.source[e1] == '.' && is_digit_exec(self.source[e1 + 1]) {
            let e2 = digits_end_exec(&self.source, e1 + 1);
            if e2 < len && self.source[e2] == '.' {
                self.current = e2;
                return Err(LoxResult::error(self.line, LexErrorKind::MalformedNumber));
            }
            self.finish_number(pos, e1, e1 + 1, e2)
        } else {
            proof {
                assert(self.source@.subrange(e1 as int, e1 as int) =~= Seq::<char>::empty());
            }
            self.finish_number(pos, e1, e1, e1)
        }
    }

    /// Scans the token that starts at the current position.
    fn scan_token(&mut self) -> (r: Result<Option<Token>, LoxResult>)
        requires
            old(self).ready(),
            old(self).current < old(self).source.len(),
        ensures
            final(self).source@ == old(self).source@,
            final(self).ready(),
            old(self).current < final(self).current,
            ({
                let st = step(old(self).source@, old(self).current as int, old(self).line as int);
                &&& final(self).current == st.next
                &&& final(self).line == st.line
                &&& stepped(st, r)
            }),
    {
        let pos = self.current;
        let line = self.line;
        let len = self.source.len();
        let c = self.source[pos];
        self.start = pos;
        if let Some(k) = single_kind_exec(c) {
            self.current = pos + 1;
            return Ok(Some(self.token(k, pos, pos + 1, None, line)));
        }
        if let Some((alone, with_equal)) = pair_kinds_exec(c) {
            if pos + 1 < len && self.source[pos + 1] == '=' {
                self.current = pos + 2;
                return Ok(Some(self.token(with_equal, pos, pos + 2, None, line)));
            } else {
                self.current = pos + 1;
                return Ok(Some(self.token(alone, pos, pos + 1, None, line)));
            }
        }
        if c == '/' {
            if pos + 1 < len && self.source[pos + 1] == '/' {
                self.current = line_end_exec(&self.source, pos + 2);
                return Ok(None);
            } else {
                self.current = pos + 1;
                return Ok(Some(self.token(TokenType::Slash, pos, pos + 1, None, line)));
            }
        }
        if c == '\n' {
            self.current = pos + 1;
            self.line = line + 1;
            return Ok(None);
        }
        if c == ' ' || c == '\r' || c == '\t' {
            self.current = pos + 1;
            return Ok(None);
        }
        if c == '"' {
            return self.string();
        }
        if is_digit_exec(c) {
            return self.number();
        }
        if is_alpha_exec(c) {
            let e = word_end_exec(&self.source, pos + 1);
            let k = check_keyword(&self.source, pos, e);
            self.current = e;
            return Ok(Some(self.token(k, pos, e, None, line)));
        }
        self.current = pos + 1;
        Err(LoxResult::error(line, LexErrorKind::UnexpectedCharacter))
    }

    /// Scans the whole source: every token in order, closed by the end-of-input
    /// token, or the first error met. Scanning goes on past an error.
    pub fn scan_tokens(&mut self) -> (r: Result<Vec<Token>, LoxResult>)
        requires
            old(self).current == 0,
            old(self).line == 1,
            old(self).source.len() < usize::MAX - 1,
        ensures
            scanned(scan_spec(old(self).source@), r),
    {
        let ghost src = self.source@;
        let ghost whole = scan_from(src, 0, 1);
        let mut tokens: Vec<Token> = Vec::new();
        let mut first: Option<LoxResult> = None;
        proof {
            assert(tokens@.map_values(|t: Token| t@) + whole.tokens =~= whole.tokens);
        }
        while self.current < self.source.len()
            invariant
                self.source@ == src,
                self.ready(),
                tokens@.map_values(|t: Token| t@) + scan_from(src, self.current as int, self.line as int).tokens
                    == whole.tokens,
                scan_from(src, self.current as int, self.line as int).line == whole.line,
                match first {
                    Some(e) => whole.error matches Some((l, k)) && e == LoxResult::Error { line: l as usize, kind: k },
                    None => scan_from(src, self.current as int, self.line as int).error == whole.error,
                },
            decreases self.source.len() - self.current,
        {
            let ghost prev = tokens@.map_values(|t: Token| t@);
            let r = self.scan_token();
            match r {
                Ok(Some(t)) => {
                    tokens.push(t);
                    proof {
                        assert(tokens@.map_values(|t: Token| t@) =~= prev.push(t@));
                        let rest = scan_from(src, self.current as int, self.line as int);
                        assert(prev.push(t@) + rest.tokens =~= prev + (seq![t@] + rest.tokens));
                    }
                },
                Ok(None) => {
                    proof {
                        assert(tokens@.map_values(|t: Token| t@) == prev);
                    }
                },
                Err(e) => {
                    proof {
                        assert(tokens@.map_values(|t: Token| t@) == prev);
                    }
                    if first.is_none() {
                        first = Some(e);
                    }
                },
            }
        }
        match first {
            Some(e) => Err(e),
            None => {
                let ghost prev = tokens@.map_values(|t: Token| t@);
                tokens.push(Token::eof(self.line));
                proof {
                    assert(prev =~= whole.tokens);
                    assert(tokens@.map_values(|t: Token| t@) =~= whole.tokens.push(
                        TokenModel { ttype: TokenType::Eof, lexeme: Seq::empty(), literal: None, line: whole.line },
                    ));
                }
                Ok(tokens)
            },
        }
    }
}

/// Scans a whole source text: its tokens closed by the end-of-input token, or the
/// first error met.
pub fn scan(source: &str) -> (r: Result<Vec<Token>, LoxResult>)
    requires
        source@.len() < usize::MAX - 1,
    ensures
        scanned(scan_spec(source@), r),
{
    let mut scanner = Scanner::new(source);
    scanner.scan_tokens()
}

proof fn lemma_newlines_positive(src: Seq<char>, a: int, b: int, j: int)
    requires
        a <= j < b,
        src[j] == '\n',
    ensures
        newlines(src, a, b) >= 1,
    decreases b - a,
{
    lemma_newlines_le(src, a, b - 1);
    if j < b - 1 {
        lemma_newlines_positive(src, a, b - 1, j);
    }
}

proof fn lemma_quote_end_bounds(src: Seq<char>, i: int)
    requires
        0 <= i <= src.len(),
    ensures
        i <= quote_end(src, i) <= src.len(),
    decreases src.len() - i,
{
    if i < src.len() && src[i] != '"' {
        lemma_quote_end_bounds(src, i + 1);
    }
}

/// A step never moves the line back, and a token it makes carries the line the
/// step ends on.
proof fn lemma_step_line(src: Seq<char>, pos: int, line: int)
    requires
        0 <= pos < src.len(),
    ensures
        step(src, pos, line).line >= line,
        step(src, pos, line).token matches Some(t) ==> t.line == step(src, pos, line).line,
{
    lemma_newlines_le(src, pos + 1, quote_end(src, pos + 1));
}

/// Every token scanned from `pos` on, starting on line `line`, is on that line
/// or a later one.
proof fn lemma_scan_lines(src: Seq<char>, pos: int, line: int)
    ensures
        forall|k: int| 0 <= k < scan_from(src, pos, line).tokens.len() ==> #[trigger] scan_from(src, pos, line).tokens[k].line
            >= line,
        scan_from(src, pos, line).line >= line,
    decreases src.len() - pos,
{
    if 0 <= pos < src.len() {
        let st = step(src, pos, line);
        lemma_step_line(src, pos, line);
        if st.next > pos && st.next <= src.len() {
            lemma_scan_lines(src, st.next, st.line);
            let rest = scan_from(src, st.next, st.line);
            if let Some(t) = st.token {
                assert forall|k: int| 0 <= k < scan_from(src, pos, line).tokens.len() implies #[trigger] scan_from(
                    src,
                    pos,
                    line,
                ).tokens[k].line >= line by {
                    if k > 0 {
                        assert(scan_from(src, pos, line).tokens[k] == rest.tokens[k - 1]);
                    }
                }
            }
        }
    }
}

/// A string literal that spans a line break moves the line on: the literal is
/// the next token, and every token scanned after it is reported at least one
/// line further down than the line the literal started on.
pub proof fn lemma_string_newline_advances_line(src: Seq<char>, pos: int, line: int, j: int)
    requires
        0 <= pos < src.len(),
        src[pos] == '"',
        pos < j < quote_end(src, pos + 1) < src.len(),
        src[j] == '\n',
    ensures
        step(src, pos, line).line >= line + 1,
        step(src, pos, line).token matches Some(t) && t.ttype == TokenType::String,
        scan_from(src, pos, line).tokens == seq![step(src, pos, line).token->0] + scan_from(
            src,
            step(src, pos, line).next,
            step(src, pos, line).line,
        ).tokens,
        forall|k: int|
            0 <= k < scan_from(src, step(src, pos, line).next, step(src, pos, line).line).tokens.len() ==> #[trigger] scan_from(
                src,
                step(src, pos, line).next,
                step(src, pos, line).line,
            ).tokens[k].line >= line + 1,
{
    lemma_newlines_positive(src, pos + 1, quote_end(src, pos + 1), j);
    lemma_quote_end_bounds(src, pos + 1);
    let st = step(src, pos, line);
    lemma_scan_lines(src, st.next, st.line);
}

} // verus!
