//! A verified scanner (lexer) for a small expression language with
//! let-bindings, arithmetic and comparison operators, boolean and integer
//! literals, and identifiers.
//!
//! The scanner is a single-pass finite-state machine: it classifies
//! characters, accumulates multi-character lexemes (numbers, identifiers,
//! keywords), disambiguates one- versus two-character operators with a
//! one-character lookahead, and emits a token stream terminated by an
//! end-of-input sentinel.
//!
//! The executable scanner lives in [`lexer`]; its behaviour is pinned down by
//! the mathematical model in [`model`], and the laws that the model obeys are
//! proved in [`laws`].

pub mod laws;
pub mod lexer;
pub mod model;
pub mod token;

pub use lexer::Lexer;
pub use token::BooleanType;
pub use token::LexError;
pub use token::LexerState;
pub use token::OperatorType;
pub use token::SpecToken;
pub use token::TokenType;
