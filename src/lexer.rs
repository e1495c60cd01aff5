use vstd::prelude::*;

use crate::ast::{KindModel, LitModel, Literal, TokenKind};
use crate::span::{byte_len, byte_offset, lemma_byte_offset_bound, lemma_byte_offset_step, utf8_width, Span};

verus! {

/// A token: its kind and the bytes of the source it was scanned from.
#[derive(Debug, PartialEq)]
pub struct Token {
    pub kind: TokenKind,
    pub span: Span,
}

/// The errors the lexer reports.
#[derive(Debug, Clone, Copy, PartialEq, Eq, Structural)]
pub enum Error {
    /// A string literal runs to the end of the input; `pos` is the byte offset
    /// of its opening quote.
    UnterminatedString { pos: usize },
    /// A character that starts no token.
    UnexpectedCharacter,
}

impl Error {
    /// A short description of the error.
    pub fn message(&self) -> (r: &'static str)
        ensures
            self is UnterminatedString ==> r@ == "string not terminated"@,
            self is UnexpectedCharacter ==> r@ == "unexpected character"@,
    {
        match self {
            Error::UnterminatedString { .. } => "string not terminated",
            Error::UnexpectedCharacter => "unexpected character",
        }
    }
}

/// A token as the specification sees it: kind model and byte offsets.
pub struct TokenModel {
    pub kind: KindModel,
    pub start: nat,
    pub end: nat,
}

/// One element of the lexer's output.
pub type LexItem = Result<TokenModel, Error>;

impl Token {
    pub open spec fn model(&self) -> TokenModel {
        TokenModel { kind: self.kind@, start: self.span.start as nat, end: self.span.end as nat }
    }
}

pub open spec fn item_model(r: Result<Token, Error>) -> LexItem {
    match r {
        Ok(t) => Ok(t.model()),
        Err(e) => Err(e),
    }
}

pub open spec fn items_model(v: Seq<Result<Token, Error>>) -> Seq<LexItem> {
    v.map_values(|r: Result<Token, Error>| item_model(r))
}

/// Characters with the Unicode `White_Space` property.
pub open spec fn white_space(c: char) -> bool {
    ('\u{9}' <= c && c <= '\u{d}') || c == ' ' || c == '\u{85}' || c == '\u{a0}' || c
        == '\u{1680}' || ('\u{2000}' <= c && c <= '\u{200a}') || c == '\u{2028}' || c
        == '\u{2029}' || c == '\u{202f}' || c == '\u{205f}' || c == '\u{3000}'
}

pub open spec fn ascii_digit(c: char) -> bool {
    '0' <= c && c <= '9'
}

pub open spec fn ident_start(c: char) -> bool {
    ('a' <= c && c <= 'z') || ('A' <= c && c <= 'Z') || c == '_'
}

pub open spec fn ident_continue(c: char) -> bool {
    ident_start(c) || ascii_digit(c)
}

/// Punctuation of exactly one character.
pub open spec fn single_char_kind(c: char) -> Option<TokenKind> {
    if c == '(' {
        Some(TokenKind::LeftParen)
    } else if c == ')' {
        Some(TokenKind::RightParen)
    } else if c == '{' {
        Some(TokenKind::LeftBrace)
    } else if c == '}' {
        Some(TokenKind::RightBrace)
    } else if c == '[' {
        Some(TokenKind::LeftBracket)
    } else if c == ']' {
        Some(TokenKind::RightBracket)
    } else if c == ',' {
        Some(TokenKind::Comma)
    } else if c == '.' {
        Some(TokenKind::Dot)
    } else if c == '-' {
        Some(TokenKind::Minus)
    } else if c == '+' {
        Some(TokenKind::Plus)
    } else if c == ';' {
        Some(TokenKind::Semicolon)
    } else if c == '*' {
        Some(TokenKind::Star)
    } else if c == '/' {
        Some(TokenKind::Slash)
    } else {
        None
    }
}

/// Operators of one character that become another operator when followed by `=`:
/// the one-character kind and the two-character kind.
pub open spec fn pair_kinds(c: char) -> Option<(TokenKind, TokenKind)> {
    if c == '!' {
        Some((TokenKind::Bang, TokenKind::BangEqual))
    } else if c == '=' {
        Some((TokenKind::Equal, TokenKind::EqualEqual))
    } else if c == '<' {
        Some((TokenKind::Less, TokenKind::LessEqual))
    } else if c == '>' {
        Some((TokenKind::Greater, TokenKind::GreaterEqual))
    } else {
        None
    }
}

/// The reserved words and the kinds they stand for.
pub open spec fn keyword(t: Seq<char>) -> Option<TokenKind> {
    if t == seq!['a', 'n', 'd'] {
        Some(TokenKind::And)
    } else if t == seq!['c', 'l', 'a', 's', 's'] {
        Some(TokenKind::Class)
    } else if t == seq!['e', 'l', 's', 'e'] {
        Some(TokenKind::Else)
    } else if t == seq!['f', 'a', 'l', 's', 'e'] {
        Some(TokenKind::Lit(Literal::False))
    } else if t == seq!['f', 'o', 'r'] {
        Some(TokenKind::For)
    } else if t == seq!['f', 'u', 'n'] {
        Some(TokenKind::Fun)
    } else if t == seq!['i', 'f'] {
        Some(TokenKind::If)
    } else if t == seq!['n', 'i', 'l'] {
        Some(TokenKind::Lit(Literal::Nil))
    } else if t == seq!['o', 'r'] {
        Some(TokenKind::Or)
    } else if t == seq!['p', 'r', 'i', 'n', 't'] {
        Some(TokenKind::Print)
    } else if t == seq!['r', 'e', 't', 'u', 'r', 'n'] {
        Some(TokenKind::Return)
    } else if t == seq!['s', 'u', 'p', 'e', 'r'] {
        Some(TokenKind::Super)
    } else if t == seq!['t', 'h', 'i', 's'] {
        Some(TokenKind::This)
    } else if t == seq!['t', 'r', 'u', 'e'] {
        Some(TokenKind::Lit(Literal::True))
    } else if t == seq!['v', 'a', 'r'] {
        Some(TokenKind::Var)
    } else if t == seq!['w', 'h', 'i', 'l', 'e'] {
        Some(TokenKind::While)
    } else {
        None
    }
}

/// The kind of a scanned word: its keyword if it is one, else an identifier.
pub open spec fn word_kind(t: Seq<char>) -> KindModel {
    match keyword(t) {
        Some(k) => k@,
        None => KindModel::Ident(t),
    }
}

/// The token of kind `kind` scanned from characters `a..b` of `s`.
pub open spec fn token_at(s: Seq<char>, a: int, b: int, kind: KindModel) -> LexItem {
    Ok(TokenModel { kind, start: byte_offset(s, a), end: byte_offset(s, b) })
}

/// The lexer's output for the whole of `s`.
pub open spec fn lex(s: Seq<char>) -> Seq<LexItem> {
    lex_from(s, 0)
}

/// The lexer's output for `s` from character index `i` on.
pub open spec fn lex_from(s: Seq<char>, i: int) -> Seq<LexItem>
    decreases s.len() - i, 0nat,
{
    if i < 0 || i >= s.len() {
        seq![]
    } else {
        let c = s[i];
        let next_is = |d: char| i + 1 < s.len() && s[i + 1] == d;
        if white_space(c) {
            lex_from(s, i + 1)
        } else if c == '/' && next_is('/') {
            skip_comment(s, i + 2)
        } else if single_char_kind(c) is Some {
            seq![token_at(s, i, i + 1, KindModel::Plain(single_char_kind(c)->Some_0))] + lex_from(
                s,
                i + 1,
            )
        } else if pair_kinds(c) is Some {
            let (one, two) = pair_kinds(c)->Some_0;
            if next_is('=') {
                seq![token_at(s, i, i + 2, KindModel::Plain(two))] + lex_from(s, i + 2)
            } else {
                seq![token_at(s, i, i + 1, KindModel::Plain(one))] + lex_from(s, i + 1)
            }
        } else if c == '"' {
            lex_string(s, i, i + 1)
        } else if ascii_digit(c) {
            lex_number(s, i, i + 1, false)
        } else if ident_start(c) {
            lex_word(s, i, i + 1)
        } else {
            seq![Err(Error::UnexpectedCharacter)] + lex_from(s, i + 1)
        }
    }
}

/// Output after a line comment whose text continues at index `k`: the comment
/// runs through the next newline.
pub open spec fn skip_comment(s: Seq<char>, k: int) -> Seq<LexItem>
    decreases s.len() - k, 1nat,
{
    if k < 0 || k >= s.len() {
        seq![]
    } else if s[k] == '\n' {
        lex_from(s, k + 1)
    } else {
        skip_comment(s, k + 1)
    }
}

/// Output from a string literal that opens at `i` and is scanned up to `k`.
pub open spec fn lex_string(s: Seq<char>, i: int, k: int) -> Seq<LexItem>
    decreases s.len() - k, 1nat,
{
    if k < 0 || k >= s.len() {
        seq![Err(Error::UnterminatedString { pos: byte_offset(s, i) as usize })]
    } else if s[k] == '"' {
        seq![token_at(s, i, k + 1, KindModel::Lit(LitModel::Str(s.subrange(i + 1, k))))]
            + lex_from(s, k + 1)
    } else {
        lex_string(s, i, k + 1)
    }
}

/// Output from a number that starts at `i` and is scanned up to `k`; `dot`
/// tells whether its decimal point has been taken.
pub open spec fn lex_number(s: Seq<char>, i: int, k: int, dot: bool) -> Seq<LexItem>
    decreases s.len() - k, 1nat,
{
    if k < 0 || k > s.len() {
        seq![]
    } else if k < s.len() && ascii_digit(s[k]) {
        lex_number(s, i, k + 1, dot)
    } else if k + 1 < s.len() && s[k] == '.' && !dot && ascii_digit(s[k + 1]) {
        lex_number(s, i, k + 1, true)
    } else {
        seq![token_at(s, i, k, KindModel::Lit(LitModel::Number(s.subrange(i, k))))] + lex_from(
            s,
            k,
        )
    }
}

/// Output from a word that starts at `i` and is scanned up to `k`.
pub open spec fn lex_word(s: Seq<char>, i: int, k: int) -> Seq<LexItem>
    decreases s.len() - k, 1nat,
{
    if k < 0 || k > s.len() {
        seq![]
    } else if k < s.len() && ident_continue(s[k]) {
        lex_word(s, i, k + 1)
    } else {
        seq![token_at(s, i, k, word_kind(s.subrange(i, k)))] + lex_from(s, k)
    }
}

/// Index of the first character at or after `i` that is neither white space
/// nor part of a line comment; `s.len()` if there is none.
pub open spec fn skip_trivia(s: Seq<char>, i: int) -> int
    decreases s.len() - i, 0nat,
{
    if i < 0 || i >= s.len() {
        s.len() as int
    } else if white_space(s[i]) {
        skip_trivia(s, i + 1)
    } else if s[i] == '/' && i + 1 < s.len() && s[i + 1] == '/' {
        skip_comment_text(s, i + 2)
    } else {
        i
    }
}

/// `skip_trivia` from index `k` inside a line comment.
pub open spec fn skip_comment_text(s: Seq<char>, k: int) -> int
    decreases s.len() - k, 1nat,
{
    if k < 0 || k >= s.len() {
        s.len() as int
    } else if s[k] == '\n' {
        skip_trivia(s, k + 1)
    } else {
        skip_comment_text(s, k + 1)
    }
}

/// Index just past the closing quote of a string whose text continues at `k`;
/// `s.len()` if the string is not closed.
pub open spec fn string_end(s: Seq<char>, k: int) -> int
    decreases s.len() - k,
{
    if k < 0 || k >= s.len() {
        s.len() as int
    } else if s[k] == '"' {
        k + 1
    } else {
        string_end(s, k + 1)
    }
}

/// Index just past a number scanned up to `k`; `dot` tells whether its decimal
/// point has been taken.
pub open spec fn number_end(s: Seq<char>, k: int, dot: bool) -> int
    decreases s.len() - k,
{
    if k < 0 || k > s.len() {
        k
    } else if k < s.len() && ascii_digit(s[k]) {
        number_end(s, k + 1, dot)
    } else if k + 1 < s.len() && s[k] == '.' && !dot && ascii_digit(s[k + 1]) {
        number_end(s, k + 1, true)
    } else {
        k
    }
}

/// Index just past a word scanned up to `k`.
pub open spec fn word_end(s: Seq<char>, k: int) -> int
    decreases s.len() - k,
{
    if k < 0 || k >= s.len() || !ident_continue(s[k]) {
        k
    } else {
        word_end(s, k + 1)
    }
}

/// Index just past what the lexer takes for the token or error that starts
/// at `k`, a character that is neither white space nor a comment's start.
pub open spec fn token_end(s: Seq<char>, k: int) -> int {
    let c = s[k];
    if single_char_kind(c) is Some {
        k + 1
    } else if pair_kinds(c) is Some {
        if k + 1 < s.len() && s[k + 1] == '=' {
            k + 2
        } else {
            k + 1
        }
    } else if c == '"' {
        string_end(s, k + 1)
    } else if ascii_digit(c) {
        number_end(s, k + 1, false)
    } else if ident_start(c) {
        word_end(s, k + 1)
    } else {
        k + 1
    }
}

/// Whether `s` from index `i` on holds only white space and line comments.
pub open spec fn blank_from(s: Seq<char>, i: int) -> bool
    decreases s.len() - i, 0nat,
{
    if i < 0 || i >= s.len() {
        true
    } else if white_space(s[i]) {
        blank_from(s, i + 1)
    } else if s[i] == '/' && i + 1 < s.len() && s[i + 1] == '/' {
        blank_comment(s, i + 2)
    } else {
        false
    }
}

/// Whether `s` from index `k`, inside a line comment, holds only the rest of
/// that comment and then white space and line comments.
pub open spec fn blank_comment(s: Seq<char>, k: int) -> bool
    decreases s.len() - k, 1nat,
{
    if k < 0 || k >= s.len() {
        true
    } else if s[k] == '\n' {
        blank_from(s, k + 1)
    } else {
        blank_comment(s, k + 1)
    }
}

proof fn lemma_blank_from(s: Seq<char>, i: int)
    requires
        blank_from(s, i),
    ensures
        lex_from(s, i) == Seq::<LexItem>::empty(),
    decreases s.len() - i, 0nat,
{
    if 0 <= i < s.len() {
        if white_space(s[i]) {
            lemma_blank_from(s, i + 1);
        } else {
            lemma_blank_comment(s, i + 2);
        }
    }
}

proof fn lemma_blank_comment(s: Seq<char>, k: int)
    requires
        blank_comment(s, k),
    ensures
        skip_comment(s, k) == Seq::<LexItem>::empty(),
    decreases s.len() - k, 1nat,
{
    if 0 <= k < s.len() {
        if s[k] == '\n' {
            lemma_blank_from(s, k + 1);
        } else {
            lemma_blank_comment(s, k + 1);
        }
    }
}

/// Input made only of white space and line comments yields no token and no error.
pub proof fn lemma_blank_input_yields_nothing(s: Seq<char>)
    requires
        blank_from(s, 0),
    ensures
        lex(s) == Seq::<LexItem>::empty(),
{
    lemma_blank_from(s, 0);
}

proof fn lemma_word_run(s: Seq<char>, k: int)
    requires
        1 <= k <= s.len(),
        forall|m: int| 0 < m < s.len() ==> ident_continue(#[trigger] s[m]),
    ensures
        lex_word(s, 0, k) == seq![token_at(s, 0, s.len() as int, word_kind(s))],
    decreases s.len() - k,
{
    if k < s.len() {
        lemma_word_run(s, k + 1);
    } else {
        assert(s.subrange(0, k) =~= s);
        assert(lex_from(s, k) =~= Seq::<LexItem>::empty());
        assert(seq![token_at(s, 0, k, word_kind(s))] + Seq::<LexItem>::empty() =~= seq![
            token_at(s, 0, k, word_kind(s)),
        ]);
    }
}

/// A word is scanned whole before the keyword table is consulted: input that
/// is one run of letters, digits and underscores, starting with a letter or an
/// underscore, yields exactly one token, whose kind is that of the whole word.
pub proof fn lemma_word_is_one_token(s: Seq<char>)
    requires
        s.len() > 0,
        ident_start(s[0]),
        forall|m: int| 0 < m < s.len() ==> ident_continue(#[trigger] s[m]),
    ensures
        lex(s) == seq![token_at(s, 0, s.len() as int, word_kind(s))],
{
    lemma_word_run(s, 1);
}

/// Maximal munch: wherever a token starts with `!`, `=`, `<` or `>` followed
/// by `=`, the two characters form one operator token.
pub proof fn lemma_two_char_operator(s: Seq<char>, i: int)
    requires
        0 <= i,
        i + 1 < s.len(),
        pair_kinds(s[i]) is Some,
        s[i + 1] == '=',
    ensures
        lex_from(s, i) == seq![token_at(s, i, i + 2, KindModel::Plain(pair_kinds(s[i])->Some_0.1))]
            + lex_from(s, i + 2),
{
}

/// The kinds of the one-character operators that a following `=` would extend.
pub open spec fn one_char_operator(k: KindModel) -> bool {
    k == KindModel::Plain(TokenKind::Bang) || k == KindModel::Plain(TokenKind::Equal) || k
        == KindModel::Plain(TokenKind::Less) || k == KindModel::Plain(TokenKind::Greater)
}

/// Token `tm` is the one-character operator at index `a` of `s`, and no `=`
/// follows it.
pub open spec fn lone_operator_at(s: Seq<char>, a: int, tm: TokenModel) -> bool {
    &&& 0 <= a < s.len()
    &&& pair_kinds(s[a]) is Some
    &&& tm.kind == KindModel::Plain(pair_kinds(s[a])->Some_0.0)
    &&& tm.start == byte_offset(s, a)
    &&& tm.end == byte_offset(s, a + 1)
    &&& !(a + 1 < s.len() && s[a + 1] == '=')
}

/// Every one-character operator token among `items` is a lone operator of `s`.
pub open spec fn munched(s: Seq<char>, items: Seq<LexItem>) -> bool {
    forall|n: int|
        0 <= n < items.len() && #[trigger] items[n] is Ok && one_char_operator(items[n]->Ok_0.kind)
            ==> exists|a: int| lone_operator_at(s, a, items[n]->Ok_0)
}

proof fn lemma_munched_cons(s: Seq<char>, x: LexItem, rest: Seq<LexItem>)
    requires
        munched(s, rest),
        x is Ok && one_char_operator(x->Ok_0.kind) ==> exists|a: int| lone_operator_at(s, a, x->Ok_0),
    ensures
        munched(s, seq![x] + rest),
{
    let items = seq![x] + rest;
    assert forall|n: int|
        0 <= n < items.len() && #[trigger] items[n] is Ok && one_char_operator(items[n]->Ok_0.kind)
            implies exists|a: int| lone_operator_at(s, a, items[n]->Ok_0) by {
        if n > 0 {
            assert(items[n] == rest[n - 1]);
        }
    }
}

proof fn lemma_munched_from(s: Seq<char>, i: int)
    ensures
        munched(s, lex_from(s, i)),
    decreases s.len() - i, 0nat,
{
    if 0 <= i < s.len() {
        let c = s[i];
        let next_eq = i + 1 < s.len() && s[i + 1] == '=';
        if white_space(c) {
            lemma_munched_from(s, i + 1);
        } else if c == '/' && i + 1 < s.len() && s[i + 1] == '/' {
            lemma_munched_comment(s, i + 2);
        } else if single_char_kind(c) is Some {
            lemma_munched_from(s, i + 1);
            lemma_munched_cons(
                s,
                token_at(s, i, i + 1, KindModel::Plain(single_char_kind(c)->Some_0)),
                lex_from(s, i + 1),
            );
        } else if pair_kinds(c) is Some {
            let (one, two) = pair_kinds(c)->Some_0;
            if next_eq {
                lemma_munched_from(s, i + 2);
                lemma_munched_cons(s, token_at(s, i, i + 2, KindModel::Plain(two)), lex_from(s, i + 2));
            } else {
                let x = token_at(s, i, i + 1, KindModel::Plain(one));
                assert(lone_operator_at(s, i, x->Ok_0));
                lemma_munched_from(s, i + 1);
                lemma_munched_cons(s, x, lex_from(s, i + 1));
            }
        } else if c == '"' {
            lemma_munched_string(s, i, i + 1);
        } else if ascii_digit(c) {
            lemma_munched_number(s, i, i + 1, false);
        } else if ident_start(c) {
            lemma_munched_word(s, i, i + 1);
        } else {
            lemma_munched_from(s, i + 1);
            lemma_munched_cons(s, Err(Error::UnexpectedCharacter), lex_from(s, i + 1));
        }
    }
}

proof fn lemma_munched_comment(s: Seq<char>, k: int)
    ensures
        munched(s, skip_comment(s, k)),
    decreases s.len() - k, 1nat,
{
    if 0 <= k < s.len() {
        if s[k] == '\n' {
            lemma_munched_from(s, k + 1);
        } else {
            lemma_munched_comment(s, k + 1);
        }
    }
}

proof fn lemma_munched_string(s: Seq<char>, i: int, k: int)
    ensures
        munched(s, lex_string(s, i, k)),
    decreases s.len() - k, 1nat,
{
    if 0 <= k < s.len() {
        if s[k] == '"' {
            lemma_munched_from(s, k + 1);
            lemma_munched_cons(
                s,
                token_at(s, i, k + 1, KindModel::Lit(LitModel::Str(s.subrange(i + 1, k)))),
                lex_from(s, k + 1),
            );
        } else {
            lemma_munched_string(s, i, k + 1);
        }
    } else {
        lemma_munched_cons(
            s,
            Err(Error::UnterminatedString { pos: byte_offset(s, i) as usize }),
            Seq::<LexItem>::empty(),
        );
        assert(seq![Err(Error::UnterminatedString { pos: byte_offset(s, i) as usize })]
            + Seq::<LexItem>::empty() =~= lex_string(s, i, k));
    }
}

proof fn lemma_munched_number(s: Seq<char>, i: int, k: int, dot: bool)
    ensures
        munched(s, lex_number(s, i, k, dot)),
    decreases s.len() - k, 1nat,
{
    if 0 <= k <= s.len() {
        if k < s.len() && ascii_digit(s[k]) {
            lemma_munched_number(s, i, k + 1, dot);
        } else if k + 1 < s.len() && s[k] == '.' && !dot && ascii_digit(s[k + 1]) {
            lemma_munched_number(s, i, k + 1, true);
        } else {
            lemma_munched_from(s, k);
            lemma_munched_cons(
                s,
                token_at(s, i, k, KindModel::Lit(LitModel::Number(s.subrange(i, k)))),
                lex_from(s, k),
            );
        }
    }
}

proof fn lemma_munched_word(s: Seq<char>, i: int, k: int)
    ensures
        munched(s, lex_word(s, i, k)),
    decreases s.len() - k, 1nat,
{
    if 0 <= k <= s.len() {
        if k < s.len() && ident_continue(s[k]) {
            lemma_munched_word(s, i, k + 1);
        } else {
            let kind = word_kind(s.subrange(i, k));
            assert(!one_char_operator(kind));
            lemma_munched_from(s, k);
            lemma_munched_cons(s, token_at(s, i, k, kind), lex_from(s, k));
        }
    }
}

/// Maximal munch over the whole output: every `!`, `=`, `<` or `>` token the
/// lexer produces is that single character of the source, and no `=` follows
/// it there.
pub proof fn lemma_lone_operators_not_followed_by_equal(s: Seq<char>)
    ensures
        munched(s, lex(s)),
{
    lemma_munched_from(s, 0);
}

/// The characters of `s` in order.
fn chars_of(s: &str) -> (r: Vec<char>)
    ensures
        r@ == s@,
{
    let mut v: Vec<char> = Vec::new();
    for c in it: s.chars()
        invariant
            it.seq() == s@,
            v@ == s@.take(it.index() as int),
        ensures
            v@ == s@,
    {
        v.push(c);
        assert(v@ =~= s@.take(it.index() + 1));
    }
    v
}

/// Relies on `str::len`: the length of `s` in bytes, which is the length of its
/// UTF-8 encoding.
#[verifier::external_body]
fn utf8_len(s: &str) -> (r: usize)
    ensures
        r as nat == byte_len(s@),
{
    s.len()
}

/// Relies on `String::from_iter` over `char`s: the string of the given characters, in order.
#[verifier::external_body]
fn string_from_chars(v: Vec<char>) -> (r: String)
    ensures
        r@ == v@,
{
    String::from_iter(v)
}

pub fn is_white_space(c: char) -> (r: bool)
    ensures
        r == white_space(c),
{
    ('\u{9}' <= c && c <= '\u{d}') || c == ' ' || c == '\u{85}' || c == '\u{a0}' || c
        == '\u{1680}' || ('\u{2000}' <= c && c <= '\u{200a}') || c == '\u{2028}' || c
        == '\u{2029}' || c == '\u{202f}' || c == '\u{205f}' || c == '\u{3000}'
}

pub fn is_ascii_digit(c: char) -> (r: bool)
    ensures
        r == ascii_digit(c),
{
    '0' <= c && c <= '9'
}

pub fn is_ident_start(c: char) -> (r: bool)
    ensures
        r == ident_start(c),
{
    ('a' <= c && c <= 'z') || ('A' <= c && c <= 'Z') || c == '_'
}

pub fn is_ident_continue(c: char) -> (r: bool)
    ensures
        r == ident_continue(c),
{
    is_ident_start(c) || is_ascii_digit(c)
}

pub fn single_char_token(c: char) -> (r: Option<TokenKind>)
    ensures
        r == single_char_kind(c),
{
    if c == '(' {
        Some(TokenKind::LeftParen)
    } else if c == ')' {
        Some(TokenKind::RightParen)
    } else if c == '{' {
        Some(TokenKind::LeftBrace)
    } else if c == '}' {
        Some(TokenKind::RightBrace)
    } else if c == '[' {
        Some(TokenKind::LeftBracket)
    } else if c == ']' {
        Some(TokenKind::RightBracket)
    } else if c == ',' {
        Some(TokenKind::Comma)
    } else if c == '.' {
        Some(TokenKind::Dot)
    } else if c == '-' {
        Some(TokenKind::Minus)
    } else if c == '+' {
        Some(TokenKind::Plus)
    } else if c == ';' {
        Some(TokenKind::Semicolon)
    } else if c == '*' {
        Some(TokenKind::Star)
    } else if c == '/' {
        Some(TokenKind::Slash)
    } else {
        None
    }
}

pub fn pair_tokens(c: char) -> (r: Option<(TokenKind, TokenKind)>)
    ensures
        r == pair_kinds(c),
{
    if c == '!' {
        Some((TokenKind::Bang, TokenKind::BangEqual))
    } else if c == '=' {
        Some((TokenKind::Equal, TokenKind::EqualEqual))
    } else if c == '<' {
        Some((TokenKind::Less, TokenKind::LessEqual))
    } else if c == '>' {
        Some((TokenKind::Greater, TokenKind::GreaterEqual))
    } else {
        None
    }
}

/// Whether characters `start..end` of `chars` spell `word`.
fn spells(chars: &Vec<char>, start: usize, end: usize, word: &Vec<char>) -> (r: bool)
    requires
        start <= end <= chars.len(),
    ensures
        r == (chars@.subrange(start as int, end as int) == word@),
{
    if end - start != word.len() {
        return false;
    }
    let mut k: usize = 0;
    while k < word.len()
        invariant
            start <= end <= chars.len(),
            end - start == word.len(),
            k <= word.len(),
            forall|m: int| 0 <= m < k ==> chars@[start + m] == word@[m],
        decreases word.len() - k,
    {
        if chars[start + k] != word[k] {
            assert(chars@.subrange(start as int, end as int)[k as int] != word@[k as int]);
            return false;
        }
        k = k + 1;
    }
    assert(chars@.subrange(start as int, end as int) =~= word@);
    true
}

/// The keyword that characters `start..end` of `chars` spell, if any.
pub fn keyword_kind(chars: &Vec<char>, start: usize, end: usize) -> (r: Option<TokenKind>)
    requires
        start <= end <= chars.len(),
    ensures
        r == keyword(chars@.subrange(start as int, end as int)),
{
    if spells(chars, start, end, &vec!['a', 'n', 'd']) {
        Some(TokenKind::And)
    } else if spells(chars, start, end, &vec!['c', 'l', 'a', 's', 's']) {
        Some(TokenKind::Class)
    } else if spells(chars, start, end, &vec!['e', 'l', 's', 'e']) {
        Some(TokenKind::Else)
    } else if spells(chars, start, end, &vec!['f', 'a', 'l', 's', 'e']) {
        Some(TokenKind::Lit(Literal::False))
    } else if spells(chars, start, end, &vec!['f', 'o', 'r']) {
        Some(TokenKind::For)
    } else if spells(chars, start, end, &vec!['f', 'u', 'n']) {
        Some(TokenKind::Fun)
    } else if spells(chars, start, end, &vec!['i', 'f']) {
        Some(TokenKind::If)
    } else if spells(chars, start, end, &vec!['n', 'i', 'l']) {
        Some(TokenKind::Lit(Literal::Nil))
    } else if spells(chars, start, end, &vec!['o', 'r']) {
        Some(TokenKind::Or)
    } else if spells(chars, start, end, &vec!['p', 'r', 'i', 'n', 't']) {
        Some(TokenKind::Print)
    } else if spells(chars, start, end, &vec!['r', 'e', 't', 'u', 'r', 'n']) {
        Some(TokenKind::Return)
    } else if spells(chars, start, end, &vec!['s', 'u', 'p', 'e', 'r']) {
        Some(TokenKind::Super)
    } else if spells(chars, start, end, &vec!['t', 'h', 'i', 's']) {
        Some(TokenKind::This)
    } else if spells(chars, start, end, &vec!['t', 'r', 'u', 'e']) {
        Some(TokenKind::Lit(Literal::True))
    } else if spells(chars, start, end, &vec!['v', 'a', 'r']) {
        Some(TokenKind::Var)
    } else if spells(chars, start, end, &vec!['w', 'h', 'i', 'l', 'e']) {
        Some(TokenKind::While)
    } else {
        None
    }
}

/// A forward-only scanner over one source text.
pub struct Lexer {
    chars: Vec<char>,
    /// Index of the next character to scan.
    index: usize,
    /// Byte offset of the next character to scan.
    offset: usize,
}

impl Lexer {
    /// The characters of the source text.
    pub closed spec fn source(&self) -> Seq<char> {
        self.chars@
    }

    /// Index of the next character to scan.
    pub closed spec fn cursor(&self) -> int {
        self.index as int
    }

    pub closed spec fn wf(&self) -> bool {
        &&& self.index <= self.chars.len()
        &&& self.offset == byte_offset(self.chars@, self.index as int)
        &&& byte_len(self.chars@) <= usize::MAX
    }

    /// A well-formed lexer's cursor lies within its source text.
    pub proof fn lemma_cursor_in_bounds(&self)
        requires
            self.wf(),
        ensures
            0 <= self.cursor() <= self.source().len(),
            byte_offset(self.source(), self.cursor()) <= byte_len(self.source()),
    {
        lemma_byte_offset_bound(self.chars@, self.index as int);
    }

    #[must_use]
    pub fn new(source: &str) -> (r: Lexer)
        ensures
            r.wf(),
            r.source() == source@,
            r.cursor() == 0,
    {
        let chars = chars_of(source);
        // The byte length fits in a `usize`, so no offset overflows.
        let _bytes = utf8_len(source);
        assert(chars@.take(0) =~= Seq::<char>::empty());
        Lexer { chars, index: 0, offset: 0 }
    }

    /// Takes the next character.
    pub fn advance(&mut self) -> (r: Option<char>)
        requires
            old(self).wf(),
        ensures
            final(self).wf(),
            final(self).source() == old(self).source(),
            old(self).cursor() < old(self).source().len() ==> r == Some(
                old(self).source()[old(self).cursor()],
            ) && final(self).cursor() == old(self).cursor() + 1,
            old(self).cursor() >= old(self).source().len() ==> r is None && final(self).cursor()
                == old(self).cursor() && old(self).cursor() == old(self).source().len(),
    {
        if self.index < self.chars.len() {
            let c = self.chars[self.index];
            proof {
                lemma_byte_offset_step(self.chars@, self.index as int);
                lemma_byte_offset_bound(self.chars@, self.index + 1);
            }
            self.offset = self.offset + utf8_width(c);
            self.index = self.index + 1;
            Some(c)
        } else {
            None
        }
    }

    /// The next character, not taken.
    pub fn first(&self) -> (r: Option<char>)
        requires
            self.wf(),
        ensures
            r == (if self.cursor() < self.source().len() {
                Some(self.source()[self.cursor()])
            } else {
                None
            }),
    {
        if self.index < self.chars.len() {
            Some(self.chars[self.index])
        } else {
            None
        }
    }

    /// The character after the next one, not taken.
    pub fn second(&self) -> (r: Option<char>)
        requires
            self.wf(),
        ensures
            r == (if self.cursor() + 1 < self.source().len() {
                Some(self.source()[self.cursor() + 1])
            } else {
                None
            }),
    {
        if self.chars.len() - self.index > 1 {
            Some(self.chars[self.index + 1])
        } else {
            None
        }
    }

    /// Byte offset of the next character.
    pub fn pos(&self) -> (r: usize)
        requires
            self.wf(),
        ensures
            r == byte_offset(self.source(), self.cursor()),
            r <= byte_len(self.source()),
            self.cursor() == self.source().len() ==> r == byte_len(self.source()),
    {
        proof {
            lemma_byte_offset_bound(self.chars@, self.index as int);
            assert(self.chars@.take(self.chars@.len() as int) =~= self.chars@);
        }
        self.offset
    }

    /// The text of characters `from..to`.
    fn text(&self, from: usize, to: usize) -> (r: String)
        requires
            from <= to <= self.chars.len(),
        ensures
            r@ == self.chars@.subrange(from as int, to as int),
    {
        let mut v: Vec<char> = Vec::new();
        let mut k = from;
        while k < to
            invariant
                from <= k <= to <= self.chars.len(),
                v@ == self.chars@.subrange(from as int, k as int),
            decreases to - k,
        {
            v.push(self.chars[k]);
            k = k + 1;
            assert(v@ =~= self.chars@.subrange(from as int, k as int));
        }
        string_from_chars(v)
    }

    /// Scans the next token, skipping white space and comments; at the end of
    /// the input, returns an `Eof` token.
    pub fn advance_token(&mut self) -> (r: Result<Token, Error>)
        requires
            old(self).wf(),
        ensures
            final(self).wf(),
            final(self).source() == old(self).source(),
            old(self).cursor() <= final(self).cursor(),
            (r matches Ok(t) && t.kind is Eof) <==> lex_from(
                old(self).source(),
                old(self).cursor(),
            ).len() == 0,
            lex_from(old(self).source(), old(self).cursor()).len() > 0 ==> lex_from(
                old(self).source(),
                old(self).cursor(),
            ) == seq![item_model(r)] + lex_from(old(self).source(), final(self).cursor())
                && old(self).cursor() < final(self).cursor(),
            final(self).cursor() == if skip_trivia(old(self).source(), old(self).cursor())
                < old(self).source().len() {
                token_end(old(self).source(), skip_trivia(old(self).source(), old(self).cursor()))
            } else {
                old(self).source().len() as int
            },
            match r {
                Ok(t) => !(t.kind is Eof) ==> t.span.start == byte_offset(
                    old(self).source(),
                    skip_trivia(old(self).source(), old(self).cursor()),
                ) && t.span.end == byte_offset(final(self).source(), final(self).cursor()),
                Err(_) => true,
            },
    {
        let ghost s = self.chars@;
        let ghost i0 = self.index as int;
        loop
            invariant
                self.wf(),
                self.chars@ == s,
                s == old(self).chars@,
                i0 == old(self).index,
                i0 <= self.index,
                lex_from(s, i0) == lex_from(s, self.index as int),
                skip_trivia(s, i0) == skip_trivia(s, self.index as int),
            decreases self.chars.len() - self.index,
        {
            let start = self.pos();
            let start_index = self.index;
            let ghost i = start_index as int;
            let c = match self.advance() {
                Some(c) => c,
                None => {
                    return Ok(Token { kind: TokenKind::Eof, span: Span::new(0, 0) });
                },
            };
            let kind = if is_white_space(c) {
                continue ;
            } else if c == '/' && self.first() == Some('/') {
                self.advance();
                while self.index < self.chars.len() && self.chars[self.index] != '\n'
                    invariant
                        self.wf(),
                        self.chars@ == s,
                        i + 2 <= self.index,
                        lex_from(s, i0) == skip_comment(s, self.index as int),
                        skip_trivia(s, i0) == skip_comment_text(s, self.index as int),
                    decreases self.chars.len() - self.index,
                {
                    self.advance();
                }
                self.advance();
                continue ;
            } else if let Some(k) = single_char_token(c) {
                k
            } else if let Some((one, two)) = pair_tokens(c) {
                if self.first() == Some('=') {
                    self.advance();
                    two
                } else {
                    one
                }
            } else if c == '"' {
                while self.index < self.chars.len() && self.chars[self.index] != '"'
                    invariant
                        self.wf(),
                        self.chars@ == s,
                        i < self.index,
                        lex_from(s, i0) == lex_string(s, i, self.index as int),
                        string_end(s, i + 1) == string_end(s, self.index as int),
                    decreases self.chars.len() - self.index,
                {
                    self.advance();
                }
                if self.index >= self.chars.len() {
                    return Err(Error::UnterminatedString { pos: start });
                }
                let string = self.text(start_index + 1, self.index);
                self.advance();
                TokenKind::Lit(Literal::String { string })
            } else if is_ascii_digit(c) {
                let mut has_dot = false;
                loop
                    invariant
                        self.wf(),
                        self.chars@ == s,
                        i < self.index,
                        lex_from(s, i0) == lex_number(s, i, self.index as int, has_dot),
                        number_end(s, i + 1, false) == number_end(s, self.index as int, has_dot),
                    ensures
                        !(self.cursor() < s.len() && ascii_digit(s[self.cursor()])),
                        !(self.cursor() + 1 < s.len() && s[self.cursor()] == '.' && !has_dot
                            && ascii_digit(s[self.cursor() + 1])),
                    decreases self.chars.len() - self.index,
                {
                    let digit_next = match self.first() {
                        Some(d) => is_ascii_digit(d),
                        None => false,
                    };
                    if digit_next {
                        self.advance();
                    } else {
                        let fraction_next = !has_dot && self.first() == Some('.') && match self.second() {
                            Some(d) => is_ascii_digit(d),
                            None => false,
                        };
                        if fraction_next {
                            has_dot = true;
                            self.advance();
                        } else {
                            break ;
                        }
                    }
                }
                TokenKind::Lit(Literal::Number(self.text(start_index, self.index)))
            } else if is_ident_start(c) {
                while self.index < self.chars.len() && is_ident_continue(self.chars[self.index])
                    invariant
                        self.wf(),
                        self.chars@ == s,
                        i < self.index,
                        lex_from(s, i0) == lex_word(s, i, self.index as int),
                        word_end(s, i + 1) == word_end(s, self.index as int),
                    decreases self.chars.len() - self.index,
                {
                    self.advance();
                }
                match keyword_kind(&self.chars, start_index, self.index) {
                    Some(k) => k,
                    None => TokenKind::Identifier { ident: self.text(start_index, self.index) },
                }
            } else {
                return Err(Error::UnexpectedCharacter);
            };
            let end = self.pos();
            return Ok(Token { kind, span: Span::new(start, end) });
        }
    }

    /// The next token or error, or `None` once the input is used up.
    pub fn next_token(&mut self) -> (r: Option<Result<Token, Error>>)
        requires
            old(self).wf(),
        ensures
            final(self).wf(),
            final(self).source() == old(self).source(),
            final(self).cursor() <= final(self).source().len(),
            match r {
                None => lex_from(old(self).source(), old(self).cursor()) == Seq::<LexItem>::empty(),
                Some(x) => lex_from(old(self).source(), old(self).cursor()) == seq![item_model(x)]
                    + lex_from(old(self).source(), final(self).cursor()) && old(self).cursor()
                    < final(self).cursor(),
            },
    {
        let r = self.advance_token();
        if let Ok(Token { kind: TokenKind::Eof, .. }) = r {
            None
        } else {
            Some(r)
        }
    }
}

/// All tokens and errors of `input`, in order. Scanning goes on after an error.
pub fn tokenize(input: &str) -> (r: Vec<Result<Token, Error>>)
    ensures
        items_model(r@) == lex(input@),
{
    let mut lexer = Lexer::new(input);
    let mut out: Vec<Result<Token, Error>> = Vec::new();
    let ghost s = input@;
    loop
        invariant_except_break
            items_model(out@) + lex_from(s, lexer.cursor()) == lex(s),
        invariant
            lexer.wf(),
            lexer.source() == s,
            0 <= lexer.cursor() <= s.len(),
        ensures
            items_model(out@) == lex(s),
        decreases s.len() - lexer.cursor(),
    {
        let ghost before = out@;
        match lexer.next_token() {
            None => {
                assert(items_model(out@) + Seq::<LexItem>::empty() =~= items_model(out@));
                break ;
            },
            Some(x) => {
                out.push(x);
                assert(items_model(out@) =~= items_model(before).push(item_model(x)));
                assert(items_model(out@) + lex_from(s, lexer.cursor()) =~= items_model(before) + (
                seq![item_model(x)] + lex_from(s, lexer.cursor())));
            },
        }
    }
    out
}

} // verus!
