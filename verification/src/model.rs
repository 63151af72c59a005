use crate::token::BooleanType;
use crate::token::LexError;
use crate::token::LexerState;
use crate::token::OperatorType;
use crate::token::SpecToken;
use vstd::prelude::*;

verus! {

/// The operator/punctuation symbols that end a pending lexeme.
pub open spec fn is_symbol(c: char) -> bool {
    c == '+' || c == '-' || c == '*' || c == '/' || c == '<' || c == '>' || c == '='
}

/// The whitespace class: the characters with the Unicode `White_Space`
/// property.
pub open spec fn is_space(c: char) -> bool {
    let u = c as u32;
    (9 <= u && u <= 13) || u == 32 || u == 0x85 || u == 0xa0 || u == 0x1680 || (0x2000 <= u && u
        <= 0x200a) || u == 0x2028 || u == 0x2029 || u == 0x202f || u == 0x205f || u == 0x3000
}

/// The numeric class: the decimal digits, the only characters that may form
/// a numeric literal.
pub open spec fn is_digit(c: char) -> bool {
    48 <= c as u32 && c as u32 <= 57
}

/// The numeric value of a single decimal digit (0 for any other character,
/// so that [`digits_value`] is total).
pub open spec fn digit_val(c: char) -> nat {
    if is_digit(c) {
        (c as u32 - 48) as nat
    } else {
        0
    }
}

/// The base-10 value of a digit run, most significant digit first.
pub open spec fn digits_value(s: Seq<char>) -> nat
    decreases s.len(),
{
    if s.len() == 0 {
        0
    } else {
        digits_value(s.drop_last()) * 10 + digit_val(s.last())
    }
}

/// The token a completed word lexeme resolves to: one of the reserved words
/// `true`, `false`, `let`, `in`, or an identifier. Reserved words never
/// become identifiers.
pub open spec fn word_token(w: Seq<char>) -> SpecToken {
    if w == "true"@ {
        SpecToken::Boolean(BooleanType::True)
    } else if w == "false"@ {
        SpecToken::Boolean(BooleanType::False)
    } else if w == "let"@ {
        SpecToken::Let
    } else if w == "in"@ {
        SpecToken::In
    } else {
        SpecToken::Identifier(w)
    }
}

/// The scanning context: the input text as a character sequence, the
/// accumulation state, the bounds of the pending lexeme (`start` is its first
/// character, `current` the next unread position), the pending token, and the
/// tokens emitted so far. This is the view of [`crate::lexer::Lexer`].
#[verifier::ext_equal]
pub struct ScanCtx {
    pub input: Seq<char>,
    pub state: LexerState,
    pub start: nat,
    pub current: nat,
    pub pending: Option<SpecToken>,
    pub tokens: Seq<SpecToken>,
}

/// A fresh context over `input`: everything at the beginning, nothing
/// pending, nothing emitted.
pub open spec fn init_ctx(input: Seq<char>) -> ScanCtx {
    ScanCtx {
        input,
        state: LexerState::Initial,
        start: 0,
        current: 0,
        pending: None,
        tokens: Seq::empty(),
    }
}

/// Flushing the pending lexeme: the pending token, if any, moves to the end
/// of the output, and `start` realigns to the character just consumed.
pub open spec fn flush_pending(m: ScanCtx) -> ScanCtx {
    let toks = match m.pending {
        Some(t) => m.tokens.push(t),
        None => m.tokens,
    };
    ScanCtx {
        tokens: toks,
        pending: None,
        start: if m.current > 0 {
            (m.current - 1) as nat
        } else {
            0
        },
        ..m
    }
}

/// Emitting a resolved token directly, bypassing the pending slot.
pub open spec fn push_tok(m: ScanCtx, t: SpecToken) -> ScanCtx {
    ScanCtx { tokens: m.tokens.push(t), pending: None, start: m.current, ..m }
}

/// One-character lookahead: does a `=` stand at the next unread position?
pub open spec fn sees_eq(m: ScanCtx) -> bool {
    m.current < m.input.len() && m.input[m.current as int] == '='
}

/// Resolving a lookahead operator: if a `=` follows, it is consumed and the
/// two-character form `two` results; otherwise the one-character form `one`.
pub open spec fn ahead_step(m: ScanCtx, two: SpecToken, one: SpecToken) -> (ScanCtx, SpecToken) {
    if sees_eq(m) {
        (ScanCtx { current: m.current + 1, ..m }, two)
    } else {
        (m, one)
    }
}

/// Resolving the symbol `c` (already consumed; `m` points past it): `+ - * /`
/// map directly, `< > =` disambiguate by lookahead, and a bare `=` maps to
/// the distinct `Assignment` token rather than an operator.
pub open spec fn symbol_step(m: ScanCtx, c: char) -> (ScanCtx, SpecToken)
    recommends
        is_symbol(c),
{
    if c == '+' {
        (m, SpecToken::Operator(OperatorType::Plus))
    } else if c == '-' {
        (m, SpecToken::Operator(OperatorType::Minus))
    } else if c == '*' {
        (m, SpecToken::Operator(OperatorType::Asterisk))
    } else if c == '/' {
        (m, SpecToken::Operator(OperatorType::Slash))
    } else if c == '<' {
        ahead_step(m, SpecToken::Operator(OperatorType::Ltoeq), SpecToken::Operator(OperatorType::Lt))
    } else if c == '>' {
        ahead_step(m, SpecToken::Operator(OperatorType::Gtoeq), SpecToken::Operator(OperatorType::Gt))
    } else {
        ahead_step(m, SpecToken::Operator(OperatorType::Equal), SpecToken::Assignment)
    }
}

/// One step of the scanner on the character at `m.current`.
///
/// Whitespace and symbols end the pending lexeme; a digit starts or extends a
/// numeric literal unless a word is already open; any other character starts
/// or extends a word, flushing a pending number first, so that digits and
/// subsequent letters never merge into one lexeme. The step fails exactly
/// when a digit run's value no longer fits in `usize`.
pub open spec fn lex_char_step(m: ScanCtx) -> Result<ScanCtx, LexError>
    recommends
        m.current < m.input.len(),
{
    let c = m.input[m.current as int];
    let m1 = ScanCtx { current: m.current + 1, ..m };
    if is_space(c) || is_symbol(c) {
        let m2 = flush_pending(m1);
        let m3 = if !is_space(c) {
            let (m4, t) = symbol_step(m2, c);
            push_tok(m4, t)
        } else {
            m2
        };
        Ok(ScanCtx { start: m3.current, state: LexerState::Initial, ..m3 })
    } else if is_digit(c) && (m.state == LexerState::Initial || m.state == LexerState::Numbers) {
        let v = digits_value(m1.input.subrange(m1.start as int, m1.current as int));
        if v > usize::MAX as nat {
            Err(LexError::NumericOverflow)
        } else {
            Ok(ScanCtx { pending: Some(SpecToken::Number(v)), state: LexerState::Numbers, ..m1 })
        }
    } else {
        let m2 = if m1.pending matches Some(SpecToken::Number(_)) {
            flush_pending(m1)
        } else {
            m1
        };
        let w = m2.input.subrange(m2.start as int, m2.current as int);
        Ok(ScanCtx { pending: Some(word_token(w)), state: LexerState::Alphabets, ..m2 })
    }
}

/// Running the scanner step by step until the whole input is consumed, or a
/// step fails.
pub open spec fn scan_loop(m: ScanCtx) -> Result<ScanCtx, LexError>
    decreases m.input.len() - m.current,
{
    if m.current < m.input.len() {
        match lex_char_step(m) {
            Ok(m2) => scan_loop(m2),
            Err(e) => Err(e),
        }
    } else {
        Ok(m)
    }
}

/// The complete scan from context `m`: run to the end of input, flush the
/// remaining pending token, and append the `EOF` sentinel.
pub open spec fn scan_from(m: ScanCtx) -> Result<Seq<SpecToken>, LexError> {
    match scan_loop(m) {
        Ok(m2) => Ok(flush_pending(m2).tokens.push(SpecToken::EOF)),
        Err(e) => Err(e),
    }
}

/// What scanning a whole input text yields.
pub open spec fn spec_scan(input: Seq<char>) -> Result<Seq<SpecToken>, LexError> {
    scan_from(init_ctx(input))
}

/// Well-formedness of a scanning context: the lexeme bounds lie within the
/// input, and the pending token is consistent with the accumulation state —
/// nothing is pending in `Initial`; in `Numbers` the pending token is the
/// number whose digits stand between `start` and `current`, and its value
/// fits in `usize`; in `Alphabets` the pending token is the word standing
/// there.
pub open spec fn ctx_inv(m: ScanCtx) -> bool {
    let seg = m.input.subrange(m.start as int, m.current as int);
    &&& m.start <= m.current <= m.input.len()
    &&& match m.state {
        LexerState::Initial => m.pending is None && m.start == m.current,
        LexerState::Numbers => m.start < m.current && digits_value(seg) <= usize::MAX as nat
            && m.pending == Some(SpecToken::Number(digits_value(seg))),
        LexerState::Alphabets => m.start < m.current && m.pending == Some(word_token(seg)),
    }
}

/// Extending a digit run by one character multiplies its value by ten and
/// adds the new digit.
pub proof fn lemma_digits_value_snoc(s: Seq<char>, a: int, b: int)
    requires
        0 <= a <= b < s.len(),
    ensures
        digits_value(s.subrange(a, b + 1)) == digits_value(s.subrange(a, b)) * 10 + digit_val(
            s[b],
        ),
{
    assert(s.subrange(a, b + 1).drop_last() =~= s.subrange(a, b));
    assert(s.subrange(a, b + 1).last() == s[b]);
}

/// The value of a digit run only grows as the run extends: the value of a
/// prefix never exceeds the value of the whole run.
pub proof fn lemma_digits_value_prefix(s: Seq<char>, i: int)
    requires
        0 <= i <= s.len(),
    ensures
        digits_value(s.subrange(0, i)) <= digits_value(s),
    decreases s.len() - i,
{
    if i == s.len() {
        assert(s.subrange(0, i) =~= s);
    } else {
        lemma_digits_value_snoc(s, 0, i);
        lemma_digits_value_prefix(s, i + 1);
    }
}

/// A successful scanner step preserves well-formedness, keeps the input, and
/// makes progress.
pub proof fn lemma_step_preserves_inv(m: ScanCtx, m2: ScanCtx)
    requires
        ctx_inv(m),
        m.current < m.input.len(),
        lex_char_step(m) == Ok::<ScanCtx, LexError>(m2),
    ensures
        ctx_inv(m2),
        m2.input == m.input,
        m.current < m2.current <= m.input.len(),
        m2.tokens.len() >= m.tokens.len(),
{
}

} // verus!
