use crate::model::ctx_inv;
use crate::model::digits_value;
use crate::model::flush_pending;
use crate::model::init_ctx;
use crate::model::is_digit;
use crate::model::is_space;
use crate::model::is_symbol;
use crate::model::lemma_digits_value_prefix;
use crate::model::lemma_step_preserves_inv;
use crate::model::lex_char_step;
use crate::model::scan_loop;
use crate::model::spec_scan;
use crate::model::word_token;
use crate::model::ScanCtx;
use crate::token::BooleanType;
use crate::token::LexError;
use crate::token::LexerState;
use crate::token::SpecToken;
use vstd::prelude::*;

verus! {

/// Law: every successful scan yields a non-empty token sequence whose last
/// element is the `EOF` sentinel.
pub proof fn lemma_scan_ends_with_eof(input: Seq<char>, toks: Seq<SpecToken>)
    requires
        spec_scan(input) == Ok::<Seq<SpecToken>, LexError>(toks),
    ensures
        toks.len() > 0,
        toks.last() == SpecToken::EOF,
{
    match scan_loop(init_ctx(input)) {
        Ok(m2) => {
            assert(toks == flush_pending(m2).tokens.push(SpecToken::EOF));
        },
        Err(_) => {
            assert(false);
        },
    }
}

/// A failing run of the scanner fails with `NumericOverflow`, whatever
/// context it starts from.
proof fn lemma_scan_loop_error(m: ScanCtx)
    ensures
        scan_loop(m) matches Err(e) ==> e == LexError::NumericOverflow,
    decreases m.input.len() - m.current,
{
    if m.current < m.input.len() {
        match lex_char_step(m) {
            Ok(mn) => {
                lemma_scan_loop_error(mn);
            },
            Err(_) => {
            },
        }
    }
}

/// Law: the only failure a scan can surface is `NumericOverflow`; the
/// `UnexpectedEndOfInput` condition — a character read past the end of the
/// input — is never returned.
pub proof fn lemma_error_is_overflow(input: Seq<char>)
    ensures
        spec_scan(input) matches Err(e) ==> e == LexError::NumericOverflow,
{
    lemma_scan_loop_error(init_ctx(input));
}

/// Scanning a run of whitespace from an idle context consumes it and emits
/// nothing.
proof fn lemma_scan_loop_spaces(m: ScanCtx)
    requires
        ctx_inv(m),
        m.state is Initial,
        forall|i: int| m.current <= i < m.input.len() ==> is_space(m.input[i]),
    ensures
        scan_loop(m) matches Ok(m2) && m2.tokens == m.tokens && m2.pending is None,
    decreases m.input.len() - m.current,
{
    if m.current < m.input.len() {
        match lex_char_step(m) {
            Ok(mn) => {
                lemma_step_preserves_inv(m, mn);
                lemma_scan_loop_spaces(mn);
            },
            Err(_) => {
                assert(false);
            },
        }
    }
}

/// Law: an input consisting only of whitespace — the empty input included —
/// scans to exactly the `EOF` sentinel.
pub proof fn lemma_whitespace_only(input: Seq<char>)
    requires
        forall|i: int| 0 <= i < input.len() ==> is_space(input[i]),
    ensures
        spec_scan(input) == Ok::<Seq<SpecToken>, LexError>(seq![SpecToken::EOF]),
{
    let m = init_ctx(input);
    lemma_scan_loop_spaces(m);
    match scan_loop(m) {
        Ok(m2) => {
            assert(flush_pending(m2).tokens.push(SpecToken::EOF) =~= seq![SpecToken::EOF]);
        },
        Err(_) => {
            assert(false);
        },
    }
}

/// Scanning a digit-only input whose value fits accumulates one number and
/// emits nothing else along the way.
proof fn lemma_scan_loop_digits(m: ScanCtx)
    requires
        ctx_inv(m),
        m.start == 0,
        m.tokens == Seq::<SpecToken>::empty(),
        m.input.len() > 0,
        if m.current == 0 {
            m.state is Initial
        } else {
            m.state is Numbers
        },
        forall|i: int| 0 <= i < m.input.len() ==> is_digit(m.input[i]),
        digits_value(m.input) <= usize::MAX as nat,
    ensures
        scan_loop(m) matches Ok(m2) && m2.pending == Some(
            SpecToken::Number(digits_value(m.input)),
        ) && m2.tokens == Seq::<SpecToken>::empty(),
    decreases m.input.len() - m.current,
{
    if m.current < m.input.len() {
        match lex_char_step(m) {
            Ok(mn) => {
                lemma_step_preserves_inv(m, mn);
                lemma_scan_loop_digits(mn);
            },
            Err(_) => {
                lemma_digits_value_prefix(m.input, m.current as int + 1);
                assert(false);
            },
        }
    } else {
        assert(m.input.subrange(0, m.input.len() as int) =~= m.input);
    }
}

/// Law: a non-empty run of decimal digits whose value fits in `usize` scans
/// to exactly one `Number` token carrying that value — one token for the
/// whole run, not one per digit — followed by the sentinel.
pub proof fn lemma_digit_run(input: Seq<char>)
    requires
        input.len() > 0,
        forall|i: int| 0 <= i < input.len() ==> is_digit(input[i]),
        digits_value(input) <= usize::MAX as nat,
    ensures
        spec_scan(input) == Ok::<Seq<SpecToken>, LexError>(
            seq![SpecToken::Number(digits_value(input)), SpecToken::EOF],
        ),
{
    let m = init_ctx(input);
    lemma_scan_loop_digits(m);
    match scan_loop(m) {
        Ok(m2) => {
            assert(flush_pending(m2).tokens =~= seq![SpecToken::Number(digits_value(input))]);
            assert(flush_pending(m2).tokens.push(SpecToken::EOF) =~= seq![
                SpecToken::Number(digits_value(input)),
                SpecToken::EOF,
            ]);
        },
        Err(_) => {
            assert(false);
        },
    }
}

/// Scanning a digit-only input whose value does not fit fails with
/// `NumericOverflow`.
proof fn lemma_scan_loop_digits_overflow(m: ScanCtx)
    requires
        ctx_inv(m),
        m.start == 0,
        m.input.len() > 0,
        if m.current == 0 {
            m.state is Initial
        } else {
            m.state is Numbers
        },
        forall|i: int| 0 <= i < m.input.len() ==> is_digit(m.input[i]),
        digits_value(m.input) > usize::MAX as nat,
    ensures
        scan_loop(m) == Err::<ScanCtx, LexError>(LexError::NumericOverflow),
    decreases m.input.len() - m.current,
{
    if m.current < m.input.len() {
        match lex_char_step(m) {
            Ok(mn) => {
                lemma_step_preserves_inv(m, mn);
                lemma_scan_loop_digits_overflow(mn);
            },
            Err(e) => {
                assert(e == LexError::NumericOverflow);
            },
        }
    } else {
        assert(m.input.subrange(0, m.input.len() as int) =~= m.input);
        assert(false);
    }
}

/// Law: a run of decimal digits whose value exceeds `usize::MAX` is the one
/// way a scan fails, and it fails with `NumericOverflow`.
pub proof fn lemma_digit_run_overflow(input: Seq<char>)
    requires
        forall|i: int| 0 <= i < input.len() ==> is_digit(input[i]),
        digits_value(input) > usize::MAX as nat,
    ensures
        spec_scan(input) == Err::<Seq<SpecToken>, LexError>(LexError::NumericOverflow),
{
    lemma_scan_loop_digits_overflow(init_ctx(input));
}

/// Scanning the rest of a word from an open-word context extends that word
/// to the end of the input and emits nothing along the way.
proof fn lemma_scan_loop_word(m: ScanCtx)
    requires
        ctx_inv(m),
        m.start == 0,
        m.current >= 1,
        m.state is Alphabets,
        m.tokens == Seq::<SpecToken>::empty(),
        forall|i: int| 0 <= i < m.input.len() ==> !is_space(m.input[i]) && !is_symbol(m.input[i]),
    ensures
        scan_loop(m) matches Ok(m2) && m2.pending == Some(word_token(m.input)) && m2.tokens
            == Seq::<SpecToken>::empty(),
    decreases m.input.len() - m.current,
{
    if m.current < m.input.len() {
        match lex_char_step(m) {
            Ok(mn) => {
                lemma_step_preserves_inv(m, mn);
                lemma_scan_loop_word(mn);
            },
            Err(_) => {
                assert(false);
            },
        }
    } else {
        assert(m.input.subrange(0, m.input.len() as int) =~= m.input);
    }
}

/// Law: a non-empty input free of whitespace and symbols that does not start
/// with a digit scans to exactly one token — the reserved word's token if the
/// input is `true`, `false`, `let` or `in`, else one `Identifier` carrying
/// the whole input — followed by the sentinel. In particular, a word may
/// contain digits after its first character without being split.
pub proof fn lemma_word_run(input: Seq<char>)
    requires
        input.len() > 0,
        forall|i: int| 0 <= i < input.len() ==> !is_space(input[i]) && !is_symbol(input[i]),
        !is_digit(input[0]),
    ensures
        spec_scan(input) == Ok::<Seq<SpecToken>, LexError>(
            seq![word_token(input), SpecToken::EOF],
        ),
{
    let m = init_ctx(input);
    match lex_char_step(m) {
        Ok(m1) => {
            lemma_step_preserves_inv(m, m1);
            lemma_scan_loop_word(m1);
            match scan_loop(m1) {
                Ok(m2) => {
                    assert(scan_loop(m) == scan_loop(m1));
                    assert(flush_pending(m2).tokens =~= seq![word_token(input)]);
                    assert(flush_pending(m2).tokens.push(SpecToken::EOF) =~= seq![
                        word_token(input),
                        SpecToken::EOF,
                    ]);
                },
                Err(_) => {
                    assert(false);
                },
            }
        },
        Err(_) => {
            assert(false);
        },
    }
}

/// Law: the reserved words scan to their keyword tokens, never to
/// identifiers.
pub proof fn lemma_reserved_words()
    ensures
        spec_scan("true"@) == Ok::<Seq<SpecToken>, LexError>(
            seq![SpecToken::Boolean(BooleanType::True), SpecToken::EOF],
        ),
        spec_scan("false"@) == Ok::<Seq<SpecToken>, LexError>(
            seq![SpecToken::Boolean(BooleanType::False), SpecToken::EOF],
        ),
        spec_scan("let"@) == Ok::<Seq<SpecToken>, LexError>(
            seq![SpecToken::Let, SpecToken::EOF],
        ),
        spec_scan("in"@) == Ok::<Seq<SpecToken>, LexError>(seq![SpecToken::In, SpecToken::EOF]),
{
    reveal_strlit("true");
    reveal_strlit("false");
    reveal_strlit("let");
    reveal_strlit("in");
    lemma_word_run("true"@);
    lemma_word_run("false"@);
    lemma_word_run("let"@);
    lemma_word_run("in"@);
}

} // verus!
