//! What holds of the lexer on every input.
//!
//! - A lexer that has stopped stays as it is: [`lemma_stopped_lexer_absorbs`].
//! - The first error decides: [`lemma_first_error_decides`].
//! - The text of an expression is lexed into its tokens, and what is lexed
//!   from an input is written as that input: [`lemma_tokenize_rendered`],
//!   [`lemma_tokens_render_input`], [`lemma_accepts_exactly_expressions`].
//! - There is one space token for each space of the input:
//!   [`lemma_one_token_per_space`].
//! - A number is what its digits say: [`lemma_number_value`].
//! - A lexing that succeeds ends in the state `End`: [`lemma_success_ends`].
//! - The strict profile takes less than the canonical one and changes no
//!   token: [`lemma_strict_refines_canonical`].
//! - The canonical profile knows three errors: [`lemma_canonical_errors`].

use crate::error::LexingError;
use crate::grammar::{
    is_expression, is_expression_prefix, last_significant, lemma_strict_is_canonical, may_follow,
};
use crate::lexer::{
    expected_digit, lemma_step_wf, unexpected, unexpected_eoi, LexerView, Profile, State, Step,
};
use crate::numeral::{
    all_digits, digits_value, first_point, is_digit_char, is_literal, lemma_append_digits_concat,
    lemma_append_digits_value, lemma_digits_are_literal, lemma_literal_is_text,
    lemma_text_is_literal, literal_of, pow10, NumeralView,
};
use crate::token::{operator_of, operator_symbol, render, OperatorKind, TokenView};
use crate::tokenize::{lemma_scan_error_persists, scan, tokenize_spec, Scan};
use vstd::prelude::*;

verus! {

/// A lexer that has reported an error or has read the end of the input takes
/// whatever is fed to it afterwards without change, and hands out nothing.
pub proof fn lemma_stopped_lexer_absorbs(m: LexerView, first: Option<char>, later: Option<char>)
    requires
        m.step(first).output is Err || first is None,
    ensures
        m.step(first).next.is_terminal(),
        m.step(first).next.step(later) == (Step {
            next: m.step(first).next,
            output: Ok(None),
        }),
{
}

/// The first error of a left-to-right scan is the result for the whole
/// input: if the scan of `s` ends in an error, lexing `s` followed by any
/// `rest` gives that error.
pub proof fn lemma_first_error_decides(profile: Profile, s: Seq<char>, rest: Seq<char>)
    requires
        scan(profile, s).error is Some,
    ensures
        tokenize_spec(profile, s + rest) == Err::<Seq<TokenView>, LexingError>(
            scan(profile, s).error->0,
        ),
{
    assert((s + rest).take(s.len() as int) =~= s);
    lemma_scan_error_persists(profile, s + rest, s.len() as int);
}

/// Feeding one more character to a scan is scanning the longer string.
pub proof fn lemma_scan_push(profile: Profile, s: Seq<char>, c: char)
    ensures
        scan(profile, s.push(c)) == scan(profile, s).feed(Some(c)),
{
    assert(s.push(c).drop_last() =~= s);
}

/// The state of a lexer that has read the first `k` characters of the
/// numeral `n`.
pub open spec fn numeral_state(n: NumeralView, k: int) -> State {
    if k <= n.whole.len() {
        State::NumberIntegers
    } else if k == n.whole.len() + 1 {
        State::NumberPoint
    } else {
        State::NumberDecimals
    }
}

/// Whether a number may begin in the state of `m`.
pub open spec fn awaits_number(m: LexerView) -> bool {
    &&& m.pending == Seq::<char>::empty()
    &&& m.state == State::Initial || m.state is Operator || m.state
        == State::WhitespaceAfterOperator
}

/// The tokens handed out once the lexer `m`, with `tokens` handed out
/// before, has read the first digit of a number.
pub open spec fn tokens_at_number(m: LexerView, tokens: Seq<TokenView>) -> Seq<TokenView> {
    match m.state {
        State::Operator(kind) => tokens.push(TokenView::Operator(kind)),
        State::WhitespaceAfterOperator => tokens.push(TokenView::Whitespace),
        _ => tokens,
    }
}

/// Reading the first `k` characters of a numeral that the profile takes,
/// where a number may begin, hands out the token that was held and leaves
/// those characters pending.
pub proof fn lemma_scan_numeral(profile: Profile, s: Seq<char>, n: NumeralView, k: int)
    requires
        scan(profile, s).error is None,
        scan(profile, s).lexer.profile == profile,
        awaits_number(scan(profile, s).lexer),
        n.wf(),
        profile.admits(n),
        1 <= k <= n.text().len(),
    ensures
        scan(profile, s + n.text().take(k)) == (Scan {
            lexer: LexerView {
                profile,
                state: numeral_state(n, k),
                pending: n.text().take(k),
            },
            tokens: tokens_at_number(scan(profile, s).lexer, scan(profile, s).tokens),
            error: None,
        }),
    decreases k,
{
    let text = n.text();
    let c = text[k - 1];
    assert(s + text.take(k) =~= (s + text.take(k - 1)).push(c));
    lemma_scan_push(profile, s + text.take(k - 1), c);
    if k == 1 {
        assert(s + text.take(0) =~= s);
        assert(c == n.whole[0]);
        assert(is_digit_char(c));
        assert(Seq::<char>::empty().push(c) =~= text.take(1));
    } else {
        lemma_scan_numeral(profile, s, n, k - 1);
        let pending = text.take(k - 1);
        assert(pending.push(c) =~= text.take(k));
        assert(pending[0] == n.whole[0]);
        if k - 1 < n.whole.len() {
            assert(c == n.whole[k - 1]);
            assert(is_digit_char(c));
            if pending == seq!['0'] {
                assert(pending.len() == 1);
            }
        } else if k - 1 == n.whole.len() {
            assert(c == '.');
            assert(pending =~= n.whole);
        } else {
            assert(c == n.frac[k - 2 - n.whole.len()]);
            assert(is_digit_char(c));
        }
    }
}

/// The state of a lexer that has read the text of `tokens`: it holds their
/// last token, which it has not handed out yet.
pub open spec fn state_holding(tokens: Seq<TokenView>) -> State
    recommends
        tokens.len() > 0,
{
    match tokens.last() {
        TokenView::Number(n) => if n.frac.len() == 0 {
            State::NumberIntegers
        } else {
            State::NumberDecimals
        },
        TokenView::Operator(kind) => State::Operator(kind),
        TokenView::Whitespace => if last_significant(tokens) is Some && last_significant(
            tokens,
        )->0 is Number {
            State::WhitespaceBeforeOperator
        } else {
            State::WhitespaceAfterOperator
        },
    }
}

/// The lexer that has read the text of `tokens`: where the last token is a
/// number, its text is pending.
pub open spec fn lexer_holding(profile: Profile, tokens: Seq<TokenView>) -> LexerView
    recommends
        tokens.len() > 0,
{
    LexerView {
        profile,
        state: state_holding(tokens),
        pending: match tokens.last() {
            TokenView::Number(n) => n.text(),
            _ => Seq::empty(),
        },
    }
}

/// The beginning of an expression has a token that is not a space.
pub proof fn lemma_prefix_has_significant(profile: Profile, tokens: Seq<TokenView>)
    requires
        tokens.len() > 0,
        is_expression_prefix(profile, tokens),
    ensures
        last_significant(tokens) is Some,
        !(last_significant(tokens)->0 is Whitespace),
    decreases tokens.len(),
{
    if tokens.last() is Whitespace {
        lemma_prefix_has_significant(profile, tokens.drop_last());
    }
}

/// The symbol of an operator is read as that operator, and as nothing else.
pub proof fn lemma_operator_symbol(kind: OperatorKind)
    ensures
        operator_of(operator_symbol(kind)) == Some(kind),
        !is_digit_char(operator_symbol(kind)),
        operator_symbol(kind) != '.',
        operator_symbol(kind) != ' ',
{
}

/// A character that is read as an operator is the symbol of that operator.
pub proof fn lemma_operator_of_symbol(c: char)
    requires
        operator_of(c) is Some,
    ensures
        operator_symbol(operator_of(c)->0) == c,
{
}

/// A lexer that holds a whole number hands it out as it was written when a
/// space, an operator or the end of the input follows.
proof fn lemma_held_number(n: NumeralView)
    requires
        n.wf(),
    ensures
        is_literal(n.text()),
        literal_of(n.text()) == n,
        n.frac.len() == 0 ==> all_digits(n.text()),
        n.frac.len() > 0 ==> first_point(n.text()) < n.text().len(),
{
    lemma_text_is_literal(n);
    if n.frac.len() == 0 {
        lemma_digits_are_literal(n.text());
    }
}

/// Scanning the text of the beginning of an expression hands out every
/// token but the last, makes no error, and leaves the lexer holding the last.
pub proof fn lemma_scan_rendered(profile: Profile, tokens: Seq<TokenView>)
    requires
        tokens.len() > 0,
        is_expression_prefix(profile, tokens),
    ensures
        scan(profile, render(tokens)) == (Scan {
            lexer: lexer_holding(profile, tokens),
            tokens: tokens.drop_last(),
            error: None,
        }),
    decreases tokens.len(),
{
    reveal_with_fuel(is_expression_prefix, 2);
    let before = tokens.drop_last();
    let last = tokens.last();
    assert(render(before) + last.text() == render(tokens));
    if before.len() == 0 {
        assert(render(before) =~= Seq::<char>::empty());
        assert(before =~= Seq::<TokenView>::empty());
        let n = last->Number_0;
        lemma_scan_numeral(profile, render(before), n, n.text().len() as int);
        assert(n.text().take(n.text().len() as int) =~= n.text());
    } else {
        lemma_scan_rendered(profile, before);
        lemma_prefix_has_significant(profile, before);
        let held = before.last();
        assert(before.drop_last().push(held) =~= before);
        if let TokenView::Number(m) = held {
            lemma_held_number(m);
        }
        match last {
            TokenView::Number(n) => {
                lemma_scan_numeral(profile, render(before), n, n.text().len() as int);
                assert(n.text().take(n.text().len() as int) =~= n.text());
            },
            TokenView::Operator(kind) => {
                lemma_operator_symbol(kind);
                assert(render(before) + last.text() =~= render(before).push(
                    operator_symbol(kind),
                ));
                lemma_scan_push(profile, render(before), operator_symbol(kind));
            },
            TokenView::Whitespace => {
                assert(render(before) + last.text() =~= render(before).push(' '));
                lemma_scan_push(profile, render(before), ' ');
            },
        }
    }
}

/// Round trip: the text of a whole expression is lexed into exactly its
/// tokens, one for each number, each operator and each space, in their order.
pub proof fn lemma_tokenize_rendered(profile: Profile, tokens: Seq<TokenView>)
    requires
        is_expression(profile, tokens),
    ensures
        tokenize_spec(profile, render(tokens)) == Ok::<Seq<TokenView>, LexingError>(tokens),
{
    reveal_with_fuel(is_expression_prefix, 2);
    lemma_scan_rendered(profile, tokens);
    let held = tokens.last();
    assert(tokens.drop_last().push(held) =~= tokens);
    if let TokenView::Number(m) = held {
        lemma_held_number(m);
    }
}

/// A literal is lexed into one number, whose value is what its digits say:
/// for digits `whole`, optionally followed by a point and digits `frac`, the
/// number is `mantissa / 10^scale` with `scale` the number of digits of
/// `frac` and `mantissa` the value of `whole` shifted by that many places
/// plus the value of `frac`. Leading zeros do not change it.
pub proof fn lemma_number_value(whole: Seq<char>, frac: Seq<char>)
    requires
        whole.len() > 0,
        all_digits(whole),
        all_digits(frac),
    ensures
        ({
            let n = NumeralView { whole, frac };
            &&& tokenize_spec(Profile::Canonical, n.text()) == Ok::<Seq<TokenView>, LexingError>(
                seq![TokenView::Number(n)],
            )
            &&& n.scale() == frac.len()
            &&& n.mantissa() == digits_value(whole) * pow10(frac.len()) + digits_value(frac)
        }),
{
    let n = NumeralView { whole, frac };
    let tokens = seq![TokenView::Number(n)];
    assert(tokens.drop_last() =~= Seq::<TokenView>::empty());
    assert(is_expression_prefix(Profile::Canonical, tokens.drop_last()));
    assert(is_expression(Profile::Canonical, tokens));
    assert(render(tokens.drop_last()) =~= Seq::<char>::empty());
    assert(render(tokens) =~= n.text());
    lemma_tokenize_rendered(Profile::Canonical, tokens);
    lemma_append_digits_concat(0, whole, frac);
    lemma_append_digits_value(digits_value(whole), frac);
}

/// The characters that a lexer has read of the token that it has not
/// handed out yet.
pub open spec fn held_text(m: LexerView) -> Seq<char> {
    match m.state {
        State::Operator(kind) => seq![operator_symbol(kind)],
        State::WhitespaceBeforeOperator | State::WhitespaceAfterOperator => seq![' '],
        _ => m.pending,
    }
}

/// What holds of a scan that no error has stopped: the tokens handed out
/// begin an expression, they and what the lexer holds are written as the
/// input read, and the state tells what the last token that is not a space
/// was.
pub open spec fn scan_is_faithful(profile: Profile, s: Seq<char>) -> bool {
    let p = scan(profile, s);
    p.error is None ==> {
        &&& p.lexer.wf()
        &&& p.lexer.profile == profile
        &&& is_expression_prefix(profile, p.tokens)
        &&& render(p.tokens) + held_text(p.lexer) == s
        &&& match p.lexer.state {
            State::Initial => p.tokens.len() == 0,
            State::NumberIntegers | State::NumberPoint | State::NumberDecimals => {
                p.tokens.len() == 0 || last_significant(p.tokens) is Some && last_significant(
                    p.tokens,
                )->0 is Operator
            },
            State::Operator(_) | State::WhitespaceBeforeOperator => {
                last_significant(p.tokens) is Some && last_significant(p.tokens)->0 is Number
            },
            State::WhitespaceAfterOperator => {
                last_significant(p.tokens) is Some && last_significant(p.tokens)->0 is Operator
            },
            State::End | State::Error => false,
        }
    }
}

/// The number that a lexer hands out is well formed, is written as the
/// pending characters, and is one that the profile of the lexer takes.
proof fn lemma_emitted_number(m: LexerView)
    requires
        m.wf(),
        m.state == State::NumberIntegers || m.state == State::NumberDecimals,
    ensures
        literal_of(m.pending).wf(),
        literal_of(m.pending).text() == m.pending,
        m.profile.admits(literal_of(m.pending)),
{
    if m.state == State::NumberIntegers {
        lemma_digits_are_literal(m.pending);
    }
    lemma_literal_is_text(m.pending);
}

/// Every scan that no error has stopped is faithful to its input.
pub proof fn lemma_scan_is_faithful(profile: Profile, s: Seq<char>)
    ensures
        scan_is_faithful(profile, s),
    decreases s.len(),
{
    if s.len() == 0 {
        assert(render(scan(profile, s).tokens) + held_text(scan(profile, s).lexer) =~= s);
    } else {
        let t = s.drop_last();
        let c = s.last();
        lemma_scan_is_faithful(profile, t);
        let p = scan(profile, t);
        let q = scan(profile, s);
        if q.error is None {
            let m = p.lexer;
            lemma_step_wf(m, Some(c));
            assert(t.push(c) =~= s);
            assert(render(p.tokens) + held_text(m) == t);
            if q.tokens != p.tokens {
                let token = q.tokens.last();
                assert(q.tokens.drop_last() =~= p.tokens);
                assert(render(q.tokens) == render(p.tokens) + token.text());
                if token is Number {
                    lemma_emitted_number(m);
                }
                assert(may_follow(profile, p.tokens, token));
            }
            if operator_of(c) is Some {
                lemma_operator_of_symbol(c);
            }
            assert(render(q.tokens) + held_text(q.lexer) =~= s);
        }
    }
}

/// What is lexed from an input is an expression whose text is that input:
/// nothing is lost, and the spaces can be put back exactly.
pub proof fn lemma_tokens_render_input(profile: Profile, s: Seq<char>)
    requires
        tokenize_spec(profile, s) is Ok,
    ensures
        is_expression(profile, tokenize_spec(profile, s)->Ok_0),
        render(tokenize_spec(profile, s)->Ok_0) == s,
{
    lemma_scan_is_faithful(profile, s);
    let p = scan(profile, s);
    let m = p.lexer;
    let tokens = tokenize_spec(profile, s)->Ok_0;
    let token = tokens.last();
    assert(tokens.drop_last() =~= p.tokens);
    assert(render(tokens) == render(p.tokens) + token.text());
    if token is Number {
        lemma_emitted_number(m);
    }
    assert(may_follow(profile, p.tokens, token));
}

/// The lexer accepts exactly the expressions: an input is lexed into
/// `tokens` if and only if `tokens` are an expression of the profile and the
/// input is their text.
pub proof fn lemma_accepts_exactly_expressions(
    profile: Profile,
    s: Seq<char>,
    tokens: Seq<TokenView>,
)
    ensures
        tokenize_spec(profile, s) == Ok::<Seq<TokenView>, LexingError>(tokens) <==> is_expression(
            profile,
            tokens,
        ) && render(tokens) == s,
{
    if tokenize_spec(profile, s) is Ok {
        lemma_tokens_render_input(profile, s);
    }
    if is_expression(profile, tokens) {
        lemma_tokenize_rendered(profile, tokens);
    }
}

/// What the strict profile takes, the canonical profile takes too, with
/// the same tokens.
pub proof fn lemma_strict_refines_canonical(s: Seq<char>)
    requires
        tokenize_spec(Profile::Strict, s) is Ok,
    ensures
        tokenize_spec(Profile::Canonical, s) == tokenize_spec(Profile::Strict, s),
{
    let tokens = tokenize_spec(Profile::Strict, s)->Ok_0;
    lemma_tokens_render_input(Profile::Strict, s);
    lemma_strict_is_canonical(tokens);
    lemma_tokenize_rendered(Profile::Canonical, tokens);
}

/// A lexing that succeeds leaves the lexer in the state `End`, and one that
/// fails leaves it in the state `Error`.
pub proof fn lemma_success_ends(profile: Profile, s: Seq<char>)
    ensures
        tokenize_spec(profile, s) is Ok ==> scan(profile, s).feed(None).lexer.state == State::End,
        tokenize_spec(profile, s) is Err ==> scan(profile, s).feed(None).lexer.state
            == State::Error,
{
    lemma_scan_is_faithful(profile, s);
    if scan(profile, s).error is Some {
        lemma_scan_stopped_in_error(profile, s);
    }
}

/// A scan that an error has stopped has left the lexer in the state `Error`.
pub proof fn lemma_scan_stopped_in_error(profile: Profile, s: Seq<char>)
    requires
        scan(profile, s).error is Some,
    ensures
        scan(profile, s).lexer.state == State::Error,
    decreases s.len(),
{
    if s.len() > 0 && scan(profile, s.drop_last()).error is Some {
        lemma_scan_stopped_in_error(profile, s.drop_last());
    }
}

/// The number of spaces in `s`.
pub open spec fn count_spaces(s: Seq<char>) -> nat
    decreases s.len(),
{
    if s.len() == 0 {
        0
    } else {
        count_spaces(s.drop_last()) + if s.last() == ' ' {
            1nat
        } else {
            0nat
        }
    }
}

/// The number of space tokens in `tokens`.
pub open spec fn count_whitespace(tokens: Seq<TokenView>) -> nat
    decreases tokens.len(),
{
    if tokens.len() == 0 {
        0
    } else {
        count_whitespace(tokens.drop_last()) + if tokens.last() is Whitespace {
            1nat
        } else {
            0nat
        }
    }
}

/// The spaces of two strings, one after the other, are counted together.
pub proof fn lemma_count_spaces_concat(a: Seq<char>, b: Seq<char>)
    ensures
        count_spaces(a + b) == count_spaces(a) + count_spaces(b),
    decreases b.len(),
{
    if b.len() == 0 {
        assert(a + b =~= a);
    } else {
        assert((a + b).drop_last() =~= a + b.drop_last());
        lemma_count_spaces_concat(a, b.drop_last());
    }
}

/// A string without a space counts none.
pub proof fn lemma_no_spaces(s: Seq<char>)
    requires
        forall|i: int| 0 <= i < s.len() ==> #[trigger] s[i] != ' ',
    ensures
        count_spaces(s) == 0,
    decreases s.len(),
{
    if s.len() > 0 {
        lemma_no_spaces(s.drop_last());
    }
}

/// The text of a token holds one space where the token is a space, and none
/// where it is a number or an operator.
pub proof fn lemma_token_spaces(token: TokenView)
    requires
        token.wf(),
    ensures
        count_spaces(token.text()) == if token is Whitespace {
            1nat
        } else {
            0nat
        },
{
    match token {
        TokenView::Number(n) => {
            let text = n.text();
            assert forall|i: int| 0 <= i < text.len() implies #[trigger] text[i] != ' ' by {
                if i < n.whole.len() {
                    assert(is_digit_char(n.whole[i]));
                } else if i > n.whole.len() {
                    assert(is_digit_char(n.frac[i - n.whole.len() - 1]));
                }
            }
            lemma_no_spaces(text);
        },
        TokenView::Operator(kind) => {
            lemma_operator_symbol(kind);
            lemma_no_spaces(token.text());
        },
        TokenView::Whitespace => {
            reveal_with_fuel(count_spaces, 2);
            assert(token.text().drop_last() =~= Seq::<char>::empty());
        },
    }
}

/// One token per space: what is lexed from an input holds as many space
/// tokens as the input holds spaces.
pub proof fn lemma_one_token_per_space(profile: Profile, s: Seq<char>)
    requires
        tokenize_spec(profile, s) is Ok,
    ensures
        count_whitespace(tokenize_spec(profile, s)->Ok_0) == count_spaces(s),
{
    let tokens = tokenize_spec(profile, s)->Ok_0;
    lemma_tokens_render_input(profile, s);
    lemma_rendered_spaces(profile, tokens);
}

/// The text of the beginning of an expression holds as many spaces as there
/// are space tokens.
pub proof fn lemma_rendered_spaces(profile: Profile, tokens: Seq<TokenView>)
    requires
        is_expression_prefix(profile, tokens),
    ensures
        count_spaces(render(tokens)) == count_whitespace(tokens),
    decreases tokens.len(),
{
    if tokens.len() > 0 {
        lemma_rendered_spaces(profile, tokens.drop_last());
        lemma_token_spaces(tokens.last());
        lemma_count_spaces_concat(render(tokens.drop_last()), tokens.last().text());
    }
}

/// A lexer of the canonical profile reports an unexpected character, the
/// character that it was fed, or an unexpected end of the input, or a
/// missing digit after a point, and nothing else.
pub proof fn lemma_canonical_errors(m: LexerView, input: Option<char>)
    requires
        m.profile == Profile::Canonical,
        m.step(input).output is Err,
    ensures
        ({
            let e = m.step(input).output->Err_0;
            ||| input is Some && e == unexpected(input->0)
            ||| input is None && e == unexpected_eoi()
            ||| e == expected_digit()
        }),
{
}

} // verus!
