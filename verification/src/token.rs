//! The lexer's output as the analyses read it: token kinds, byte spans and
//! tokens.

use vstd::prelude::*;

verus! {

/// Kind of a lexical token.
///
/// Keywords that the analyses name individually have their own variant;
/// every other keyword is `OtherKeyword`, and every other token `Other`.
#[derive(Debug, Clone, Copy, PartialEq, Eq, Structural)]
pub enum TokenKind {
    // Keywords.
    /// `All` token.
    All,
    /// `Alter` token.
    Alter,
    /// `As` token.
    As,
    /// `Begin` token.
    Begin,
    /// `Catch` token.
    Catch,
    /// `Create` token.
    Create,
    /// `Declare` token.
    Declare,
    /// `Delete` token.
    Delete,
    /// `Distinct` token.
    Distinct,
    /// `Drop` token.
    Drop,
    /// `Else` token.
    Else,
    /// `End` token.
    End,
    /// `Exec` token.
    Exec,
    /// `From` token.
    From,
    /// `Go` token.
    Go,
    /// `Group` token.
    Group,
    /// `Having` token.
    Having,
    /// `If` token.
    If,
    /// `Index` token.
    Index,
    /// `Insert` token.
    Insert,
    /// `Into` token.
    Into,
    /// `Join` token.
    Join,
    /// `Order` token.
    Order,
    /// `Procedure` token.
    Procedure,
    /// `Return` token.
    Return,
    /// `Select` token.
    Select,
    /// `SET` keyword token.
    SetKw,
    /// `Table` token.
    Table,
    /// `Top` token.
    Top,
    /// `Trigger` token.
    Trigger,
    /// `Try` token.
    Try,
    /// `Union` token.
    Union,
    /// `Update` token.
    Update,
    /// `Values` token.
    Values,
    /// `View` token.
    View,
    /// `Where` token.
    Where,
    /// `While` token.
    While,
    // Data type names.
    /// `Bigdatetime` token.
    Bigdatetime,
    /// `Bigint` token.
    Bigint,
    /// `Binary` token.
    Binary,
    /// `Bit` token.
    Bit,
    /// `Char` token.
    Char,
    /// `Date` token.
    Date,
    /// `Datetime` token.
    Datetime,
    /// `Decimal` token.
    Decimal,
    /// `Double` token.
    Double,
    /// `Image` token.
    Image,
    /// `Int` token.
    Int,
    /// `Integer` token.
    Integer,
    /// `Money` token.
    Money,
    /// `Nchar` token.
    Nchar,
    /// `Ntext` token.
    Ntext,
    /// `Numeric` token.
    Numeric,
    /// `Nvarchar` token.
    Nvarchar,
    /// `Real` token.
    Real,
    /// `Smalldatetime` token.
    Smalldatetime,
    /// `Smallint` token.
    Smallint,
    /// `Smallmoney` token.
    Smallmoney,
    /// `Text` token.
    Text,
    /// `Time` token.
    Time,
    /// `Timestamp` token.
    Timestamp,
    /// `Tinyint` token.
    Tinyint,
    /// `Unichar` token.
    Unichar,
    /// `Uniqueidentifier` token.
    Uniqueidentifier,
    /// `Unitext` token.
    Unitext,
    /// `Univarchar` token.
    Univarchar,
    /// `Varbinary` token.
    Varbinary,
    /// `Varchar` token.
    Varchar,
    // Names, variables, literals and comments.
    /// `Ident` token.
    Ident,
    /// `LocalVar` token.
    LocalVar,
    /// `GlobalVar` token.
    GlobalVar,
    /// `TempTable` token.
    TempTable,
    /// `GlobalTempTable` token.
    GlobalTempTable,
    /// `String` token.
    String,
    /// `NString` token.
    NString,
    /// `UnicodeString` token.
    UnicodeString,
    /// `HexString` token.
    HexString,
    /// `Number` token.
    Number,
    /// `FloatLiteral` token.
    FloatLiteral,
    /// `LineComment` token.
    LineComment,
    /// `BlockComment` token.
    BlockComment,
    // Punctuation and operators.
    /// `Ampersand` token.
    Ampersand,
    /// `Assign` token.
    Assign,
    /// `Caret` token.
    Caret,
    /// `Colon` token.
    Colon,
    /// `Comma` token.
    Comma,
    /// `Concat` token.
    Concat,
    /// `Dot` token.
    Dot,
    /// `Eq` token.
    Eq,
    /// `Ge` token.
    Ge,
    /// `Gt` token.
    Gt,
    /// `LParen` token.
    LParen,
    /// `Le` token.
    Le,
    /// `Lt` token.
    Lt,
    /// `Minus` token.
    Minus,
    /// `MinusAssign` token.
    MinusAssign,
    /// `Ne` token.
    Ne,
    /// `NeAlt` token.
    NeAlt,
    /// `NotGt` token.
    NotGt,
    /// `NotLt` token.
    NotLt,
    /// `Percent` token.
    Percent,
    /// `Pipe` token.
    Pipe,
    /// `Plus` token.
    Plus,
    /// `PlusAssign` token.
    PlusAssign,
    /// `RParen` token.
    RParen,
    /// `Semicolon` token.
    Semicolon,
    /// `Slash` token.
    Slash,
    /// `SlashAssign` token.
    SlashAssign,
    /// `Star` token.
    Star,
    /// `StarAssign` token.
    StarAssign,
    /// `Tilde` token.
    Tilde,
    // Everything else.
    /// `OtherKeyword` token.
    OtherKeyword,
    /// `Other` token.
    Other,
    /// `Eof` token.
    Eof,
}

impl TokenKind {
    /// Whether this kind is a keyword.
    pub open spec fn spec_is_keyword(self) -> bool {
        match self {
            TokenKind::All
            | TokenKind::Alter
            | TokenKind::As
            | TokenKind::Begin
            | TokenKind::Catch
            | TokenKind::Create
            | TokenKind::Declare
            | TokenKind::Delete
            | TokenKind::Distinct
            | TokenKind::Drop
            | TokenKind::Else
            | TokenKind::End
            | TokenKind::Exec
            | TokenKind::From
            | TokenKind::Go
            | TokenKind::Group
            | TokenKind::Having
            | TokenKind::If
            | TokenKind::Index
            | TokenKind::Insert
            | TokenKind::Into
            | TokenKind::Join
            | TokenKind::Order
            | TokenKind::Procedure
            | TokenKind::Return
            | TokenKind::Select
            | TokenKind::SetKw
            | TokenKind::Table
            | TokenKind::Top
            | TokenKind::Trigger
            | TokenKind::Try
            | TokenKind::Union
            | TokenKind::Update
            | TokenKind::Values
            | TokenKind::View
            | TokenKind::Where
            | TokenKind::While
            | TokenKind::OtherKeyword => true,
            _ => false,
        }
    }

    /// Whether this kind is a keyword.
    #[verifier::when_used_as_spec(spec_is_keyword)]
    pub fn is_keyword(self) -> (r: bool)
        ensures
            r == self.spec_is_keyword(),
    {
        match self {
            TokenKind::All
            | TokenKind::Alter
            | TokenKind::As
            | TokenKind::Begin
            | TokenKind::Catch
            | TokenKind::Create
            | TokenKind::Declare
            | TokenKind::Delete
            | TokenKind::Distinct
            | TokenKind::Drop
            | TokenKind::Else
            | TokenKind::End
            | TokenKind::Exec
            | TokenKind::From
            | TokenKind::Go
            | TokenKind::Group
            | TokenKind::Having
            | TokenKind::If
            | TokenKind::Index
            | TokenKind::Insert
            | TokenKind::Into
            | TokenKind::Join
            | TokenKind::Order
            | TokenKind::Procedure
            | TokenKind::Return
            | TokenKind::Select
            | TokenKind::SetKw
            | TokenKind::Table
            | TokenKind::Top
            | TokenKind::Trigger
            | TokenKind::Try
            | TokenKind::Union
            | TokenKind::Update
            | TokenKind::Values
            | TokenKind::View
            | TokenKind::Where
            | TokenKind::While
            | TokenKind::OtherKeyword => true,
            _ => false,
        }
    }
}

/// Byte span `[start, end)` of a token in the source.
#[derive(Debug, Clone, Copy, PartialEq, Eq, Structural)]
pub struct Span {
    /// Start byte offset (inclusive).
    pub start: u32,
    /// End byte offset (exclusive).
    pub end: u32,
}

impl Span {
    /// Build a span.
    pub fn new(start: u32, end: u32) -> (s: Span)
        ensures
            s.start == start,
            s.end == end,
    {
        Span { start, end }
    }

    /// Length of the span in bytes; zero for a reversed span.
    pub fn len(&self) -> (n: u32)
        ensures
            n == (if self.end >= self.start { self.end - self.start } else { 0 }),
    {
        if self.end >= self.start {
            self.end - self.start
        } else {
            0
        }
    }
}

/// A token: its kind, its text and its byte span in the source.
#[derive(Debug, Clone, PartialEq, Eq)]
pub struct OwnedToken {
    /// Token kind.
    pub kind: TokenKind,
    /// Token text as written.
    pub text: String,
    /// Byte span in the source.
    pub span: Span,
}

} // verus!
