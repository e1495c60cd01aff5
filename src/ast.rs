use vstd::prelude::*;

verus! {

/// The kind of a token, with its payload where it has one.
#[derive(Debug, Clone, PartialEq)]
pub enum TokenKind {
    LeftParen,
    RightParen,
    LeftBrace,
    RightBrace,
    LeftBracket,
    RightBracket,
    Comma,
    Dot,
    Minus,
    Plus,
    Semicolon,
    Slash,
    Star,
    // One or two characters
    Bang,
    BangEqual,
    Equal,
    EqualEqual,
    Greater,
    GreaterEqual,
    Less,
    LessEqual,
    // Literals: strings, numbers, `true`, `false` and `nil`
    Lit(Literal),
    Identifier { ident: String },
    // Keywords
    And,
    Class,
    Else,
    Fun,
    For,
    If,
    Or,
    Print,
    Return,
    Super,
    This,
    Var,
    While,
    /// End of input; the lexer reports it internally and never hands it out.
    Eof,
}

/// A literal value. A number keeps the decimal text it was written with
/// (digits, with at most one `.` between digits).
#[derive(Debug, Clone, PartialEq)]
pub enum Literal {
    True,
    False,
    Nil,
    String { string: String },
    Number(String),
}

#[derive(Debug, Clone, Copy, PartialEq, Eq, Structural)]
pub enum BinOp {
    NotEqual,
    Equal,
    Greater,
    GreaterEqual,
    Less,
    LessEqual,
    Add,
    Sub,
    Mul,
    Div,
}

#[derive(Debug, Clone, Copy, PartialEq, Eq, Structural)]
pub enum UnaryOp {
    Neg,
    Not,
}

/// An expression tree; each node owns its children.
#[derive(Debug, PartialEq)]
pub enum Expression {
    Literal(Literal),
    UnaryOp { op: UnaryOp, expr: Box<Expression> },
    BinaryOp { left: Box<Expression>, op: BinOp, right: Box<Expression> },
}

/// A literal with its text as a sequence of characters.
pub enum LitModel {
    True,
    False,
    Nil,
    Str(Seq<char>),
    Number(Seq<char>),
}

/// A token kind with its text as a sequence of characters. `Plain` holds the
/// kinds that carry no text.
pub enum KindModel {
    Plain(TokenKind),
    Ident(Seq<char>),
    Lit(LitModel),
}

/// An expression tree over literal models.
pub enum ExprModel {
    Lit(LitModel),
    Unary(UnaryOp, Box<ExprModel>),
    Binary(Box<ExprModel>, BinOp, Box<ExprModel>),
}

impl View for Literal {
    type V = LitModel;

    open spec fn view(&self) -> LitModel {
        match self {
            Literal::True => LitModel::True,
            Literal::False => LitModel::False,
            Literal::Nil => LitModel::Nil,
            Literal::String { string } => LitModel::Str(string@),
            Literal::Number(text) => LitModel::Number(text@),
        }
    }
}

impl View for TokenKind {
    type V = KindModel;

    open spec fn view(&self) -> KindModel {
        match self {
            TokenKind::Lit(l) => KindModel::Lit(l@),
            TokenKind::Identifier { ident } => KindModel::Ident(ident@),
            _ => KindModel::Plain(*self),
        }
    }
}

impl Expression {
    /// The tree with each literal replaced by its model.
    pub open spec fn model(&self) -> ExprModel
        decreases self,
    {
        match self {
            Expression::Literal(l) => ExprModel::Lit(l@),
            Expression::UnaryOp { op, expr } => ExprModel::Unary(*op, Box::new(expr.model())),
            Expression::BinaryOp { left, op, right } => ExprModel::Binary(
                Box::new(left.model()),
                *op,
                Box::new(right.model()),
            ),
        }
    }
}

impl View for Expression {
    type V = ExprModel;

    open spec fn view(&self) -> ExprModel {
        self.model()
    }
}

impl Literal {
    /// A copy of the literal, text included.
    pub fn duplicate(&self) -> (r: Literal)
        ensures
            r@ == self@,
    {
        match self {
            Literal::True => Literal::True,
            Literal::False => Literal::False,
            Literal::Nil => Literal::Nil,
            Literal::String { string } => Literal::String { string: string.clone() },
            Literal::Number(text) => Literal::Number(text.clone()),
        }
    }
}

} // verus!
