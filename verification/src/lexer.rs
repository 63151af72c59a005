use crate::model::ahead_step;
use crate::model::ctx_inv;
use crate::model::digit_val;
use crate::model::digits_value;
use crate::model::flush_pending;
use crate::model::init_ctx;
use crate::model::is_digit;
use crate::model::is_space;
use crate::model::is_symbol;
use crate::model::lemma_digits_value_snoc;
use crate::model::lemma_step_preserves_inv;
use crate::model::lex_char_step;
use crate::model::push_tok;
use crate::model::scan_from;
use crate::model::scan_loop;
use crate::model::symbol_step;
use crate::model::word_token;
use crate::model::ScanCtx;
use crate::token::BooleanType;
use crate::token::LexError;
use crate::token::LexerState;
use crate::token::OperatorType;
use crate::token::SpecToken;
use crate::token::TokenType;
use vstd::prelude::*;

verus! {

/// Decides membership in the scanner's whitespace class.
fn is_space_char(c: char) -> (r: bool)
    ensures
        r == is_space(c),
{
    let u = c as u32;
    (9 <= u && u <= 13) || u == 32 || u == 0x85 || u == 0xa0 || u == 0x1680 || (0x2000 <= u && u
        <= 0x200a) || u == 0x2028 || u == 0x2029 || u == 0x202f || u == 0x205f || u == 0x3000
}

/// Decides membership in the scanner's symbol class.
fn is_symbol_char(c: char) -> (r: bool)
    ensures
        r == is_symbol(c),
{
    c == '+' || c == '-' || c == '*' || c == '/' || c == '<' || c == '>' || c == '='
}

/// Decides whether `c` is a decimal digit.
fn is_digit_char(c: char) -> (r: bool)
    ensures
        r == is_digit(c),
{
    let u = c as u32;
    48 <= u && u <= 57
}

/// The numeric value of a decimal digit.
fn digit_value_of(c: char) -> (d: usize)
    requires
        is_digit(c),
    ensures
        d as nat == digit_val(c),
{
    (c as u32 - 48) as usize
}

/// Character-for-character equality of two string slices.
fn str_eq(a: &str, b: &str) -> (r: bool)
    ensures
        r == (a@ == b@),
{
    let na = a.unicode_len();
    let nb = b.unicode_len();
    if na != nb {
        return false;
    }
    let mut i: usize = 0;
    while i < na
        invariant
            i <= na,
            na == a@.len(),
            na == b@.len(),
            forall|k: int| 0 <= k < i ==> a@[k] == b@[k],
        decreases na - i,
    {
        if a.get_char(i) != b.get_char(i) {
            return false;
        }
        i = i + 1;
    }
    proof {
        assert(a@ =~= b@);
    }
    true
}

/// Resolves a completed word lexeme: a reserved word becomes its keyword
/// token, anything else an identifier.
fn keyword_token_of(s: &str) -> (t: TokenType)
    ensures
        t@ == word_token(s@),
{
    if str_eq(s, "true") {
        TokenType::Boolean(BooleanType::True)
    } else if str_eq(s, "false") {
        TokenType::Boolean(BooleanType::False)
    } else if str_eq(s, "let") {
        TokenType::Let
    } else if str_eq(s, "in") {
        TokenType::In
    } else {
        TokenType::Identifier(s.to_owned())
    }
}

/// The scanner. It owns one scan over one input text: character
/// classification, lexeme accumulation, keyword and operator resolution, and
/// token emission. A `Lexer` is created fresh per invocation and discarded
/// after producing the final token sequence.
pub struct Lexer<'a> {
    input: &'a str,
    state: LexerState,
    start: usize,
    current: usize,
    current_token: Option<TokenType>,
    tokens: Vec<TokenType>,
}

impl<'a> View for Lexer<'a> {
    type V = ScanCtx;

    closed spec fn view(&self) -> ScanCtx {
        ScanCtx {
            input: self.input@,
            state: self.state,
            start: self.start as nat,
            current: self.current as nat,
            pending: match self.current_token {
                Some(t) => Some(t@),
                None => None,
            },
            tokens: self.tokens.deep_view(),
        }
    }
}

impl<'a> Lexer<'a> {
    /// Well-formedness: the scanner's view is a well-formed scanning context.
    pub open spec fn inv(&self) -> bool {
        ctx_inv(self@)
    }

    /// Creates a fresh scanner over `input`.
    pub fn new(input: &'a str) -> (r: Lexer<'a>)
        ensures
            r@ == init_ctx(input@),
            r.inv(),
    {
        let r = Lexer {
            input,
            state: LexerState::Initial,
            start: 0,
            current: 0,
            current_token: None,
            tokens: Vec::new(),
        };
        proof {
            assert(r@ =~= init_ctx(input@));
        }
        r
    }

    /// Flushes the pending lexeme token, if any, into the output sequence and
    /// realigns `start`.
    fn push_current_token(&mut self)
        ensures
            final(self)@ == flush_pending(old(self)@),
    {
        let ghost pre = self@;
        if let Some(token) = self.current_token.take() {
            self.tokens.push(token);
            proof {
                assert(self.tokens.deep_view() =~= pre.tokens.push(token@));
            }
        }
        self.start = if self.current > 0 {
            self.current - 1
        } else {
            0
        };
        proof {
            assert(self@ =~= flush_pending(pre));
        }
    }

    /// Emits a resolved token directly, bypassing the pending slot.
    fn push_token(&mut self, token: TokenType)
        ensures
            final(self)@ == push_tok(old(self)@, token@),
    {
        let ghost pre = self@;
        let ghost t = token@;
        self.tokens.push(token);
        self.current_token = None;
        self.start = self.current;
        proof {
            assert(self.tokens.deep_view() =~= pre.tokens.push(t));
            assert(self@ =~= push_tok(pre, t));
        }
    }

    /// Resolves a consumed `<`: lookahead for `=` gives `<=`, else `<`.
    fn lt_ahead(&mut self) -> (t: TokenType)
        ensures
            (final(self)@, t@) == ahead_step(
                old(self)@,
                SpecToken::Operator(OperatorType::Ltoeq),
                SpecToken::Operator(OperatorType::Lt),
            ),
    {
        let ghost pre = self@;
        let n = self.input.unicode_len();
        let r = if self.current < n && self.input.get_char(self.current) == '=' {
            self.current = self.current + 1;
            TokenType::Operator(OperatorType::Ltoeq)
        } else {
            TokenType::Operator(OperatorType::Lt)
        };
        proof {
            assert(self@ =~= ahead_step(pre, SpecToken::Operator(OperatorType::Ltoeq), SpecToken::Operator(OperatorType::Lt)).0);
        }
        r
    }

    /// Resolves a consumed `>`: lookahead for `=` gives `>=`, else `>`.
    fn gt_ahead(&mut self) -> (t: TokenType)
        ensures
            (final(self)@, t@) == ahead_step(
                old(self)@,
                SpecToken::Operator(OperatorType::Gtoeq),
                SpecToken::Operator(OperatorType::Gt),
            ),
    {
        let ghost pre = self@;
        let n = self.input.unicode_len();
        let r = if self.current < n && self.input.get_char(self.current) == '=' {
            self.current = self.current + 1;
            TokenType::Operator(OperatorType::Gtoeq)
        } else {
            TokenType::Operator(OperatorType::Gt)
        };
        proof {
            assert(self@ =~= ahead_step(pre, SpecToken::Operator(OperatorType::Gtoeq), SpecToken::Operator(OperatorType::Gt)).0);
        }
        r
    }

    /// Resolves a consumed `=`: lookahead for `=` gives the `==` operator,
    /// else the distinct `Assignment` token.
    fn eq_ahead(&mut self) -> (t: TokenType)
        ensures
            (final(self)@, t@) == ahead_step(
                old(self)@,
                SpecToken::Operator(OperatorType::Equal),
                SpecToken::Assignment,
            ),
    {
        let ghost pre = self@;
        let n = self.input.unicode_len();
        let r = if self.current < n && self.input.get_char(self.current) == '=' {
            self.current = self.current + 1;
            TokenType::Operator(OperatorType::Equal)
        } else {
            TokenType::Assignment
        };
        proof {
            assert(self@ =~= ahead_step(pre, SpecToken::Operator(OperatorType::Equal), SpecToken::Assignment).0);
        }
        r
    }

    /// Consumes one character and performs one scanner step, exactly as
    /// [`lex_char_step`] describes it.
    fn lex_char(&mut self) -> (r: Result<(), LexError>)
        requires
            old(self).inv(),
            old(self)@.current < old(self)@.input.len(),
            old(self)@.input.len() <= usize::MAX as nat,
        ensures
            final(self)@.input == old(self)@.input,
            match r {
                Ok(()) => lex_char_step(old(self)@) == Ok::<ScanCtx, LexError>(final(self)@)
                    && final(self).inv() && old(self)@.current < final(self)@.current
                    <= final(self)@.input.len(),
                Err(e) => lex_char_step(old(self)@) == Err::<ScanCtx, LexError>(e),
            },
    {
        let ghost m = self@;
        self.current = self.current + 1;
        let c = self.input.get_char(self.current - 1);
        let ghost m1 = self@;
        proof {
            assert(m1 =~= ScanCtx { current: m.current + 1, ..m });
        }
        if is_space_char(c) || is_symbol_char(c) {
            self.push_current_token();
            let ghost m2 = self@;
            if !is_space_char(c) {
                let token: TokenType;
                if c == '+' {
                    token = TokenType::Operator(OperatorType::Plus);
                } else if c == '-' {
                    token = TokenType::Operator(OperatorType::Minus);
                } else if c == '*' {
                    token = TokenType::Operator(OperatorType::Asterisk);
                } else if c == '/' {
                    token = TokenType::Operator(OperatorType::Slash);
                } else if c == '<' {
                    token = self.lt_ahead();
                } else if c == '>' {
                    token = self.gt_ahead();
                } else {
                    proof {
                        assert(c == '=');
                    }
                    token = self.eq_ahead();
                }
                proof {
                    assert((self@, token@) == symbol_step(m2, c));
                }
                self.push_token(token);
            }
            let ghost m3 = self@;
            self.start = self.current;
            self.state = LexerState::Initial;
            proof {
                assert(self@ =~= ScanCtx { start: m3.current, state: LexerState::Initial, ..m3 });
                assert(lex_char_step(m) == Ok::<ScanCtx, LexError>(self@));
                lemma_step_preserves_inv(m, self@);
            }
            Ok(())
        } else if is_digit_char(c) && (self.state == LexerState::Initial || self.state
            == LexerState::Numbers) {
            let d = digit_value_of(c);
            let prev: usize = match &self.current_token {
                Some(TokenType::Number(v)) => *v,
                _ => 0,
            };
            proof {
                lemma_digits_value_snoc(m1.input, m1.start as int, m.current as int);
                if m.state == LexerState::Initial {
                    assert(m1.input.subrange(m1.start as int, m.current as int)
                        =~= Seq::<char>::empty());
                }
                assert(prev as nat == digits_value(
                    m1.input.subrange(m1.start as int, m.current as int),
                ));
                assert(digits_value(m1.input.subrange(m1.start as int, m1.current as int))
                    == prev as nat * 10 + digit_val(c));
            }
            let next_val: usize = match prev.checked_mul(10) {
                Some(p) => {
                    match p.checked_add(d) {
                        Some(v) => v,
                        None => {
                            return Err(LexError::NumericOverflow);
                        },
                    }
                },
                None => {
                    return Err(LexError::NumericOverflow);
                },
            };
            self.current_token = Some(TokenType::Number(next_val));
            self.state = LexerState::Numbers;
            proof {
                assert(self@ =~= ScanCtx {
                    pending: Some(SpecToken::Number(digits_value(m1.input.subrange(m1.start as int, m1.current as int)))),
                    state: LexerState::Numbers,
                    ..m1
                });
                assert(lex_char_step(m) == Ok::<ScanCtx, LexError>(self@));
                lemma_step_preserves_inv(m, self@);
            }
            Ok(())
        } else {
            let number_pending: bool = match &self.current_token {
                Some(TokenType::Number(_)) => true,
                _ => false,
            };
            if number_pending {
                self.push_current_token();
            }
            let ghost m2 = self@;
            let inp = self.input;
            let sub = inp.substring_char(self.start, self.current);
            let token = keyword_token_of(sub);
            self.current_token = Some(token);
            self.state = LexerState::Alphabets;
            proof {
                let w = m2.input.subrange(m2.start as int, m2.current as int);
                assert(self@ =~= ScanCtx {
                    pending: Some(word_token(w)),
                    state: LexerState::Alphabets,
                    ..m2
                });
                assert(lex_char_step(m) == Ok::<ScanCtx, LexError>(self@));
                lemma_step_preserves_inv(m, self@);
            }
            Ok(())
        }
    }

    /// Runs the scanner to the end of its input and returns the token
    /// sequence, terminated by the `EOF` sentinel — exactly what
    /// [`scan_from`] yields on the starting context (for a fresh scanner:
    /// [`crate::model::spec_scan`] on the input). The scan fails exactly when
    /// the model does, and only with `NumericOverflow`; the position
    /// bookkeeping never reads past the end of the input.
    pub fn exec(&mut self) -> (r: Result<Vec<TokenType>, LexError>)
        requires
            old(self).inv(),
        ensures
            final(self)@.input == old(self)@.input,
            match r {
                Ok(v) => scan_from(old(self)@) == Ok::<Seq<SpecToken>, LexError>(v.deep_view())
                    && final(self)@.pending is None && final(self)@.current
                    == final(self)@.input.len() && final(self)@.tokens == Seq::<SpecToken>::empty(),
                Err(e) => scan_from(old(self)@) == Err::<Seq<SpecToken>, LexError>(e),
            },
    {
        let ghost m0 = self@;
        let n = self.input.unicode_len();
        while self.current < n
            invariant
                m0 == old(self)@,
                self.inv(),
                n == self@.input.len(),
                self@.input == m0.input,
                scan_loop(self@) == scan_loop(m0),
            decreases n - self.current,
        {
            let ghost mpre = self@;
            match self.lex_char() {
                Ok(()) => {
                    proof {
                        assert(scan_loop(mpre) == scan_loop(self@));
                    }
                },
                Err(e) => {
                    proof {
                        assert(scan_loop(mpre) == Err::<ScanCtx, LexError>(e));
                    }
                    return Err(e);
                },
            }
        }
        proof {
            assert(scan_loop(self@) == Ok::<ScanCtx, LexError>(self@));
        }
        let ghost mend = self@;
        self.push_current_token();
        let mut out: Vec<TokenType> = Vec::new();
        core::mem::swap(&mut out, &mut self.tokens);
        out.push(TokenType::EOF);
        proof {
            assert(out.deep_view() =~= flush_pending(mend).tokens.push(SpecToken::EOF));
            assert(self@.tokens =~= Seq::<SpecToken>::empty());
        }
        Ok(out)
    }
}

} // verus!
