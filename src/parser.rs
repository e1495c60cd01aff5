use vstd::prelude::*;

use crate::ast::{BinOp, ExprModel, Expression, KindModel, TokenKind, UnaryOp};
use crate::lexer::{self, items_model, lex, tokenize, LexItem, Token};

verus! {

/// The errors the parser reports.
#[derive(Debug, Clone, Copy, PartialEq, Eq, Structural)]
pub enum Error {
    /// No production of the grammar matches the tokens.
    Syntax,
    /// The lexer failed on the token the parser asked for.
    LexerError(lexer::Error),
}

impl Error {
    /// A short description of the error.
    pub fn message(&self) -> (r: &'static str)
        ensures
            self is Syntax ==> r@ == "syntax error"@,
            self matches Error::LexerError(e) && e is UnterminatedString ==> r@
                == "string not terminated"@,
            self matches Error::LexerError(e) && e is UnexpectedCharacter ==> r@
                == "unexpected character"@,
    {
        match self {
            Error::Syntax => "syntax error",
            Error::LexerError(e) => e.message(),
        }
    }
}

/// What the parser sees at token index `i`.
pub enum Look {
    End,
    Tok(KindModel),
    Fail(lexer::Error),
}

pub open spec fn look(ts: Seq<LexItem>, i: int) -> Look {
    if 0 <= i < ts.len() {
        match ts[i] {
            Ok(t) => Look::Tok(t.kind),
            Err(e) => Look::Fail(e),
        }
    } else {
        Look::End
    }
}

/// A parsed expression with the index of the first token after it.
pub type Parsed = Result<(ExprModel, int), Error>;

/// The binary operator that token kind `k` stands for at precedence level
/// `level`: 0 equality, 1 comparison, 2 term, 3 factor.
pub open spec fn binop_at(level: nat, k: KindModel) -> Option<BinOp> {
    if level == 0 {
        match k {
            KindModel::Plain(TokenKind::EqualEqual) => Some(BinOp::Equal),
            KindModel::Plain(TokenKind::BangEqual) => Some(BinOp::NotEqual),
            _ => None,
        }
    } else if level == 1 {
        match k {
            KindModel::Plain(TokenKind::Greater) => Some(BinOp::Greater),
            KindModel::Plain(TokenKind::GreaterEqual) => Some(BinOp::GreaterEqual),
            KindModel::Plain(TokenKind::Less) => Some(BinOp::Less),
            KindModel::Plain(TokenKind::LessEqual) => Some(BinOp::LessEqual),
            _ => None,
        }
    } else if level == 2 {
        match k {
            KindModel::Plain(TokenKind::Plus) => Some(BinOp::Add),
            KindModel::Plain(TokenKind::Minus) => Some(BinOp::Sub),
            _ => None,
        }
    } else {
        match k {
            KindModel::Plain(TokenKind::Star) => Some(BinOp::Mul),
            KindModel::Plain(TokenKind::Slash) => Some(BinOp::Div),
            _ => None,
        }
    }
}

/// The prefix operator that token kind `k` stands for.
pub open spec fn unop_of(k: KindModel) -> Option<UnaryOp> {
    match k {
        KindModel::Plain(TokenKind::Bang) => Some(UnaryOp::Not),
        KindModel::Plain(TokenKind::Minus) => Some(UnaryOp::Neg),
        _ => None,
    }
}

/// Levels left below `level` before the unary level.
pub open spec fn rank(level: nat) -> nat {
    if level >= 3 {
        0
    } else {
        (3 - level) as nat
    }
}

/// An expression starting at token `i`.
pub open spec fn parse_expr(ts: Seq<LexItem>, i: int) -> Parsed {
    binary(ts, i, 0)
}

/// A left-associative chain of operands joined by operators of `level`.
/// A successful parse always takes at least one token, so the test `i < j`
/// below always holds; it makes termination evident.
pub open spec fn binary(ts: Seq<LexItem>, i: int, level: nat) -> Parsed
    decreases ts.len() - i, 2 * rank(level) + 3,
{
    match operand(ts, i, level) {
        Err(e) => Err(e),
        Ok((left, j)) => if i < j <= ts.len() {
            binary_rest(ts, j, level, left)
        } else {
            Ok((left, j))
        },
    }
}

/// The rest of a chain at `level` from token `j`, folded onto `left`.
pub open spec fn binary_rest(ts: Seq<LexItem>, j: int, level: nat, left: ExprModel) -> Parsed
    decreases ts.len() - j, 0nat,
{
    match look(ts, j) {
        Look::Fail(e) => Err(Error::LexerError(e)),
        Look::End => Ok((left, j)),
        Look::Tok(k) => match binop_at(level, k) {
            None => Ok((left, j)),
            Some(op) => match operand(ts, j + 1, level) {
                Err(e) => Err(e),
                Ok((right, k2)) => {
                    let folded = ExprModel::Binary(Box::new(left), op, Box::new(right));
                    if j < k2 <= ts.len() {
                        binary_rest(ts, k2, level, folded)
                    } else {
                        Ok((folded, k2))
                    }
                },
            },
        },
    }
}

/// An operand of an operator of `level`: a chain of the next level, or a
/// unary expression below the factor level.
pub open spec fn operand(ts: Seq<LexItem>, i: int, level: nat) -> Parsed
    decreases ts.len() - i, 2 * rank(level) + 2,
{
    if level >= 3 {
        unary(ts, i)
    } else {
        binary(ts, i, level + 1)
    }
}

/// Prefix operators applied, right to left, to a primary expression.
pub open spec fn unary(ts: Seq<LexItem>, i: int) -> Parsed
    decreases ts.len() - i, 1nat,
{
    match look(ts, i) {
        Look::Fail(e) => Err(Error::LexerError(e)),
        Look::Tok(k) => match unop_of(k) {
            Some(op) => match unary(ts, i + 1) {
                Err(e) => Err(e),
                Ok((e, j)) => Ok((ExprModel::Unary(op, Box::new(e)), j)),
            },
            None => primary(ts, i),
        },
        Look::End => primary(ts, i),
    }
}

/// A literal, or an expression in parentheses.
pub open spec fn primary(ts: Seq<LexItem>, i: int) -> Parsed
    decreases ts.len() - i, 0nat,
{
    match look(ts, i) {
        Look::Fail(e) => Err(Error::LexerError(e)),
        Look::Tok(KindModel::Lit(l)) => Ok((ExprModel::Lit(l), i + 1)),
        Look::Tok(KindModel::Plain(TokenKind::LeftParen)) => match binary(ts, i + 1, 0) {
            Err(e) => Err(e),
            Ok((e, j)) => match look(ts, j) {
                Look::Fail(err) => Err(Error::LexerError(err)),
                Look::Tok(KindModel::Plain(TokenKind::RightParen)) => Ok((e, j + 1)),
                _ => Err(Error::Syntax),
            },
        },
        _ => Err(Error::Syntax),
    }
}

pub fn binop_for(level: u8, kind: &TokenKind) -> (r: Option<BinOp>)
    ensures
        r == binop_at(level as nat, kind@),
{
    if level == 0 {
        match kind {
            TokenKind::EqualEqual => Some(BinOp::Equal),
            TokenKind::BangEqual => Some(BinOp::NotEqual),
            _ => None,
        }
    } else if level == 1 {
        match kind {
            TokenKind::Greater => Some(BinOp::Greater),
            TokenKind::GreaterEqual => Some(BinOp::GreaterEqual),
            TokenKind::Less => Some(BinOp::Less),
            TokenKind::LessEqual => Some(BinOp::LessEqual),
            _ => None,
        }
    } else if level == 2 {
        match kind {
            TokenKind::Plus => Some(BinOp::Add),
            TokenKind::Minus => Some(BinOp::Sub),
            _ => None,
        }
    } else {
        match kind {
            TokenKind::Star => Some(BinOp::Mul),
            TokenKind::Slash => Some(BinOp::Div),
            _ => None,
        }
    }
}

pub fn unop_for(kind: &TokenKind) -> (r: Option<UnaryOp>)
    ensures
        r == unop_of(kind@),
{
    match kind {
        TokenKind::Bang => Some(UnaryOp::Not),
        TokenKind::Minus => Some(UnaryOp::Neg),
        _ => None,
    }
}

/// Whether `r` is the executable result that the parse outcome `p` describes,
/// with the parser left at `pos`.
pub open spec fn delivers(r: Result<Expression, Error>, p: Parsed, pos: int) -> bool {
    match p {
        Ok((e, j)) => r matches Ok(x) && x@ == e && pos == j,
        Err(err) => r matches Err(x) && x == err,
    }
}

/// A recursive-descent parser over a sequence of lexer results, with one
/// token of lookahead.
pub struct Parser {
    tokens: Vec<Result<Token, lexer::Error>>,
    pos: usize,
}

impl Parser {
    /// The models of the lexer results the parser reads.
    pub closed spec fn tokens(&self) -> Seq<LexItem> {
        items_model(self.tokens@)
    }

    /// Index of the next token.
    pub closed spec fn position(&self) -> int {
        self.pos as int
    }

    pub closed spec fn wf(&self) -> bool {
        self.pos <= self.tokens.len()
    }

    pub fn new(tokens: Vec<Result<Token, lexer::Error>>) -> (r: Parser)
        ensures
            r.wf(),
            r.tokens() == items_model(tokens@),
            r.position() == 0,
    {
        Parser { tokens, pos: 0 }
    }

    /// The next token's kind, or the lexer's error in its place.
    fn peek(&self) -> (r: Result<Option<&TokenKind>, lexer::Error>)
        requires
            self.wf(),
        ensures
            match look(self.tokens(), self.position()) {
                Look::End => r matches Ok(None),
                Look::Tok(k) => r matches Ok(Some(x)) && x@ == k,
                Look::Fail(e) => r == Err::<Option<&TokenKind>, lexer::Error>(e),
            },
    {
        if self.pos < self.tokens.len() {
            match &self.tokens[self.pos] {
                Ok(t) => Ok(Some(&t.kind)),
                Err(e) => Err(*e),
            }
        } else {
            Ok(None)
        }
    }

    /// Parses one expression from the current token on.
    pub fn parse_expression(&mut self) -> (r: Result<Expression, Error>)
        requires
            old(self).wf(),
        ensures
            final(self).wf(),
            final(self).tokens() == old(self).tokens(),
            delivers(r, parse_expr(old(self).tokens(), old(self).position()), final(self).position()),
    {
        self.parse_binary(0)
    }

    fn parse_binary(&mut self, level: u8) -> (r: Result<Expression, Error>)
        requires
            old(self).wf(),
            level <= 3,
        ensures
            final(self).wf(),
            final(self).tokens == old(self).tokens,
            delivers(r, binary(old(self).tokens(), old(self).position(), level as nat), final(self).position()),
            r is Ok ==> old(self).position() < final(self).position(),
        decreases old(self).tokens.len() - old(self).pos, 2 * rank(level as nat) + 3,
    {
        let ghost ts = self.tokens();
        let ghost i = self.pos as int;
        let mut left = match self.parse_operand(level) {
            Ok(e) => e,
            Err(e) => return Err(e),
        };
        loop
            invariant
                self.wf(),
                self.tokens == old(self).tokens,
                ts == self.tokens(),
                i == old(self).pos,
                i < self.pos,
                level <= 3,
                binary(ts, i, level as nat) == binary_rest(ts, self.pos as int, level as nat, left@),
            ensures
                binary_rest(ts, self.pos as int, level as nat, left@) == Ok::<(ExprModel, int), Error>((left@, self.pos as int)),
            decreases self.tokens.len() - self.pos,
        {
            let op = match self.peek() {
                Err(e) => return Err(Error::LexerError(e)),
                Ok(None) => break ,
                Ok(Some(kind)) => match binop_for(level, kind) {
                    Some(op) => op,
                    None => break ,
                },
            };
            self.pos = self.pos + 1;
            let right = match self.parse_operand(level) {
                Ok(e) => e,
                Err(e) => return Err(e),
            };
            left = Expression::BinaryOp { left: Box::new(left), op, right: Box::new(right) };
        }
        Ok(left)
    }

    fn parse_operand(&mut self, level: u8) -> (r: Result<Expression, Error>)
        requires
            old(self).wf(),
            level <= 3,
        ensures
            final(self).wf(),
            final(self).tokens == old(self).tokens,
            delivers(r, operand(old(self).tokens(), old(self).position(), level as nat), final(self).position()),
            r is Ok ==> old(self).position() < final(self).position(),
        decreases old(self).tokens.len() - old(self).pos, 2 * rank(level as nat) + 2,
    {
        if level >= 3 {
            self.parse_unary()
        } else {
            self.parse_binary(level + 1)
        }
    }

    fn parse_unary(&mut self) -> (r: Result<Expression, Error>)
        requires
            old(self).wf(),
        ensures
            final(self).wf(),
            final(self).tokens == old(self).tokens,
            delivers(r, unary(old(self).tokens(), old(self).position()), final(self).position()),
            r is Ok ==> old(self).position() < final(self).position(),
        decreases old(self).tokens.len() - old(self).pos, 1nat,
    {
        let op = match self.peek() {
            Err(e) => return Err(Error::LexerError(e)),
            Ok(None) => None,
            Ok(Some(kind)) => unop_for(kind),
        };
        match op {
            Some(op) => {
                self.pos = self.pos + 1;
                match self.parse_unary() {
                    Ok(e) => Ok(Expression::UnaryOp { op, expr: Box::new(e) }),
                    Err(e) => Err(e),
                }
            },
            None => self.parse_primary(),
        }
    }

    fn parse_primary(&mut self) -> (r: Result<Expression, Error>)
        requires
            old(self).wf(),
        ensures
            final(self).wf(),
            final(self).tokens == old(self).tokens,
            delivers(r, primary(old(self).tokens(), old(self).position()), final(self).position()),
            r is Ok ==> old(self).position() < final(self).position(),
            !(look(old(self).tokens(), old(self).position()) matches Look::Tok(KindModel::Lit(_)))
                && !(look(old(self).tokens(), old(self).position()) == Look::Tok(
                KindModel::Plain(TokenKind::LeftParen),
            )) ==> final(self).position() == old(self).position(),
        decreases old(self).tokens.len() - old(self).pos, 0nat,
    {
        match self.peek() {
            Err(e) => return Err(Error::LexerError(e)),
            Ok(Some(TokenKind::Lit(l))) => {
                let lit = l.duplicate();
                self.pos = self.pos + 1;
                return Ok(Expression::Literal(lit));
            },
            Ok(Some(TokenKind::LeftParen)) => {},
            _ => return Err(Error::Syntax),
        }
        self.pos = self.pos + 1;
        let expr = match self.parse_binary(0) {
            Ok(e) => e,
            Err(e) => return Err(e),
        };
        match self.peek() {
            Err(e) => Err(Error::LexerError(e)),
            Ok(Some(TokenKind::RightParen)) => {
                self.pos = self.pos + 1;
                Ok(expr)
            },
            _ => Err(Error::Syntax),
        }
    }
}

/// Tokenizes `source` and parses one expression from its first token.
pub fn parse(source: &str) -> (r: Result<Expression, Error>)
    ensures
        match parse_expr(lex(source@), 0) {
            Ok((e, _)) => r matches Ok(x) && x@ == e,
            Err(err) => r matches Err(x) && x == err,
        },
{
    let tokens = tokenize(source);
    let mut parser = Parser::new(tokens);
    parser.parse_expression()
}

} // verus!
