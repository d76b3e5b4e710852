//! Token data model: the closed set of token kinds the scanner produces,
//! together with the position information attached to every token.
use vstd::prelude::*;

verus! {

/// A paired delimiter: one of `( ) [ ] { }`.
#[derive(Debug, Clone, Copy, PartialEq, Eq, Structural)]
pub struct Delimeter {
    pub ty: DelimeterType,
    pub side: DelimeterSide,
}

impl Delimeter {
    pub fn ty(&self) -> (r: &DelimeterType)
        ensures
            *r == self.ty,
    {
        &self.ty
    }

    pub fn side(&self) -> (r: &DelimeterSide)
        ensures
            *r == self.side,
    {
        &self.side
    }
}

#[derive(Debug, Clone, Copy, PartialEq, Eq, Structural)]
pub enum DelimeterType {
    Parentheses,
    Square,
    Curly,
}

#[derive(Debug, Clone, Copy, PartialEq, Eq, Structural)]
pub enum DelimeterSide {
    Left,
    Right,
}

/// Punctuation tokens. `DoubleColon` is the scope separator `::` that joins
/// the segments of a path such as `a::b::c`.
#[derive(Debug, Clone, Copy, PartialEq, Eq, Structural)]
pub enum Punctuation {
    Semicolon,
    Comma,
    Colon,
    DoubleColon,
    FatArrow,
    Dot,
    DoubleDot,
    TripleDot,
    HashSymbol,
    AtSign,
    QuestionMark,
    Dollar,
    DoubleDollar,
}

/// The fractional part of a real literal, kept as the scanned decimal digits
/// (most significant first); the digit at index `i` has weight `10^-(i+1)`.
/// Keeping digits rather than a binary floating value loses nothing the
/// scanner ever knew about the literal.
#[derive(Debug, Clone, PartialEq, Eq)]
pub struct RealLiteral {
    pub int_part: u64,
    pub frac_digits: Vec<u8>,
}

#[derive(Debug, Clone, PartialEq, Eq)]
pub enum NumberLiteral {
    Integer(u64),
    Real(RealLiteral),
}

#[derive(Debug, Clone, PartialEq, Eq)]
pub enum Literal {
    Number(NumberLiteral),
    String(Vec<char>),
    Char(char),
}

#[derive(Debug, Clone, Copy, PartialEq, Eq, Structural)]
pub enum Comment {
    SingleLine,
    MultiLine,
}

#[derive(Debug, Clone, Copy, PartialEq, Eq, Structural)]
pub enum Operator {
    Plus,
    Minus,
    // unary
    DoublePlus,
    DoubleMinus,
    Tilda,
    Bang,
    // binary
    Star,
    Slash,
    BangEquals,
    RightShift,
    LesserThan,
    DoubleStar,
    DoubleAnd,
    DoubleOr,
    DoubleEquals,
    GreaterThan,
    Caret,
    Percent,
    SingleAnd,
    SingleOr,
    LeftShift,
    // assignment
    Equals,
    PlusEquals,
    MinusEquals,
    StarEquals,
    SlashEquals,
    TildaEquals,
    DoubleStarEquals,
    DoubleAndEquals,
    DoubleOrEquals,
    LesserThanEquals,
    GreaterThanEquals,
    CaretEquals,
    PercentEquals,
    SingleAndEquals,
    SingleOrEquals,
    LeftShiftEquals,
    RightShiftEquals,
}

#[derive(Debug, Clone, Copy, PartialEq, Eq, Structural)]
pub enum Keyword {
    Underscore,
}

#[derive(Debug, Clone, PartialEq, Eq)]
pub enum TokenType {
    Identifier,
    Whitespace,
    Punctuation(Punctuation),
    Delimeter(Delimeter),
    Literal(Literal),
    Comment(Comment),
    Operator(Operator),
    Keyword(Keyword),
}

/// Position of a token: character offset into the source text, 1-based line,
/// column, and the covered source text itself.
#[derive(Debug, Clone, PartialEq, Eq)]
pub struct TokenPosition {
    pub absolute_position: usize,
    pub line: usize,
    pub column: usize,
    pub text: Vec<char>,
}

impl TokenPosition {
    pub fn absolute_position(&self) -> (r: usize)
        ensures
            r == self.absolute_position,
    {
        self.absolute_position
    }

    pub fn line(&self) -> (r: usize)
        ensures
            r == self.line,
    {
        self.line
    }

    pub fn column(&self) -> (r: usize)
        ensures
            r == self.column,
    {
        self.column
    }

    pub fn text(&self) -> (r: &Vec<char>)
        ensures
            r == &self.text,
    {
        &self.text
    }
}

#[derive(Debug, Clone, PartialEq, Eq)]
pub struct Token {
    pub position: TokenPosition,
    pub ty: TokenType,
}

impl Token {
    pub fn position(&self) -> (r: &TokenPosition)
        ensures
            *r == self.position,
    {
        &self.position
    }

    pub fn ty(&self) -> (r: &TokenType)
        ensures
            *r == self.ty,
    {
        &self.ty
    }

    /// The source text the token covers.
    pub fn text(&self) -> (r: &Vec<char>)
        ensures
            r == &self.position.text,
    {
        &self.position.text
    }
}

/// The keyword table. `_` is the only keyword of the language so far.
pub fn get_keyword(s: &Vec<char>) -> (r: Option<Keyword>)
    ensures
        r == spec_get_keyword(s@),
{
    if s.len() == 1 && s[0] == '_' {
        assert(s@ =~= seq!['_']);
        Some(Keyword::Underscore)
    } else {
        assert(s@ != seq!['_']) by {
            if s@ == seq!['_'] {
                assert(s@.len() == 1 && s@[0] == '_');
            }
        }
        None
    }
}

pub open spec fn spec_get_keyword(s: Seq<char>) -> Option<Keyword> {
    if s == seq!['_'] {
        Some(Keyword::Underscore)
    } else {
        None
    }
}

/// Ghost-level image of a [`Literal`], with owned text as a sequence and the
/// number forms flattened.
pub enum SpecLit {
    Integer(u64),
    Real { int_part: u64, frac: Seq<u8> },
    Str(Seq<char>),
    Char(char),
}

pub open spec fn abs_lit(l: Literal) -> SpecLit {
    match l {
        Literal::Number(NumberLiteral::Integer(i)) => SpecLit::Integer(i),
        Literal::Number(NumberLiteral::Real(r)) => SpecLit::Real {
            int_part: r.int_part,
            frac: r.frac_digits@,
        },
        Literal::String(v) => SpecLit::Str(v@),
        Literal::Char(c) => SpecLit::Char(c),
    }
}

/// Ghost-level image of a [`TokenType`].
pub enum SpecTokenType {
    Identifier,
    Whitespace,
    Punctuation(Punctuation),
    Delimeter(Delimeter),
    Literal(SpecLit),
    Comment(Comment),
    Operator(Operator),
    Keyword(Keyword),
}

pub open spec fn abs_token_type(t: TokenType) -> SpecTokenType {
    match t {
        TokenType::Identifier => SpecTokenType::Identifier,
        TokenType::Whitespace => SpecTokenType::Whitespace,
        TokenType::Punctuation(p) => SpecTokenType::Punctuation(p),
        TokenType::Delimeter(d) => SpecTokenType::Delimeter(d),
        TokenType::Literal(l) => SpecTokenType::Literal(abs_lit(l)),
        TokenType::Comment(c) => SpecTokenType::Comment(c),
        TokenType::Operator(o) => SpecTokenType::Operator(o),
        TokenType::Keyword(k) => SpecTokenType::Keyword(k),
    }
}

/// Ghost-level image of a [`Token`] as the parser sees it: the covered text
/// and the kind.
pub struct SpecTok {
    pub text: Seq<char>,
    pub ty: SpecTokenType,
}

pub open spec fn abs_token(t: Token) -> SpecTok {
    SpecTok { text: t.position.text@, ty: abs_token_type(t.ty) }
}

} // verus!
