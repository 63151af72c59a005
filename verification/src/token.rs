use vstd::prelude::*;

verus! {

/// The arithmetic and comparison operators of the expression language.
///
/// A bare `=` is not an operator: it resolves to the distinct
/// [`TokenType::Assignment`] token, while `==` resolves to
/// `Operator(Equal)`.
#[derive(PartialEq, Debug, Clone)]
pub enum OperatorType {
    Plus,
    Minus,
    Asterisk,
    Slash,
    Equal,
    Lt,
    Ltoeq,
    Gt,
    Gtoeq,
}

/// The two boolean literals.
#[derive(PartialEq, Debug, Clone)]
pub enum BooleanType {
    True,
    False,
}

/// The scanner's accumulation state: it governs whether a digit starts a new
/// numeric literal, extends a pending one, or is folded into an
/// already-started word.
#[derive(PartialEq, Eq, Structural, Debug, Clone, Copy)]
pub enum LexerState {
    Initial,
    Numbers,
    Alphabets,
}

/// A classified, indivisible unit of source text, produced by the scanner.
///
/// Every successful scan yields a sequence of these whose last element is
/// exactly one `EOF` sentinel.
#[derive(PartialEq, Debug, Clone)]
pub enum TokenType {
    Identifier(String),
    Number(usize),
    Boolean(BooleanType),
    Operator(OperatorType),
    Let,
    Assignment,
    In,
    EOF,
}

/// The failure kinds of a scan.
///
/// `NumericOverflow` is returned when an accumulated digit run does not fit
/// in `usize`. `UnexpectedEndOfInput` would indicate a character read past
/// the end of the input; the scanner's position bookkeeping is verified, so
/// it proves that this variant is never returned (see the contract of
/// [`crate::lexer::Lexer::exec`]).
#[derive(PartialEq, Eq, Structural, Debug, Clone, Copy)]
pub enum LexError {
    UnexpectedEndOfInput,
    NumericOverflow,
}

/// The mathematical counterpart of [`TokenType`]: identifier text as a
/// character sequence, numbers as unbounded naturals. Contracts and the
/// scanner model speak of these.
pub enum SpecToken {
    Identifier(Seq<char>),
    Number(nat),
    Boolean(BooleanType),
    Operator(OperatorType),
    Let,
    Assignment,
    In,
    EOF,
}

impl View for TokenType {
    type V = SpecToken;

    open spec fn view(&self) -> SpecToken {
        match self {
            TokenType::Identifier(s) => SpecToken::Identifier(s@),
            TokenType::Number(n) => SpecToken::Number(*n as nat),
            TokenType::Boolean(b) => SpecToken::Boolean(*b),
            TokenType::Operator(o) => SpecToken::Operator(*o),
            TokenType::Let => SpecToken::Let,
            TokenType::Assignment => SpecToken::Assignment,
            TokenType::In => SpecToken::In,
            TokenType::EOF => SpecToken::EOF,
        }
    }
}

impl DeepView for TokenType {
    type V = SpecToken;

    open spec fn deep_view(&self) -> SpecToken {
        self.view()
    }
}

} // verus!
