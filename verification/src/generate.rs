//! Random expressions for exercising the lexer. Every function draws from a
//! generator that the caller hands in, so that a seed fixes what is made.

use crate::error::LexingError;
use crate::grammar::{
    is_expression, is_expression_prefix, is_spaced, last_significant, lemma_insert_space,
    lemma_render_concat, lemma_replace_number, lemma_spaced_insert, lemma_spaced_reflexive,
    lemma_strict_is_canonical, significant,
};
use crate::laws::lemma_tokenize_rendered;
use crate::lexer::Profile;
use crate::numeral::{
    all_digits, digit_value, is_digit_char, is_literal, lemma_digits_are_literal,
    lemma_literal_is_text, lemma_pointed_literal, literal_of, Numeral, NumeralView,
};
use crate::outside::gen_range;
use crate::token::{render, views, OperatorKind, Token, TokenView};
use crate::tokenize::tokenize_spec;
use rand::rngs::StdRng;
use vstd::prelude::*;
use vstd::string::StringExecFns;

verus! {

/// The character that writes the digit `digit`.
pub fn digit_to_char(digit: usize) -> (c: char)
    requires
        digit < 10,
    ensures
        is_digit_char(c),
        digit_value(c) == digit,
{
    match digit {
        0 => '0',
        1 => '1',
        2 => '2',
        3 => '3',
        4 => '4',
        5 => '5',
        6 => '6',
        7 => '7',
        8 => '8',
        _ => '9',
    }
}

/// A random digit from `1` to `9`.
pub fn random_non_zero_digit(rng: &mut StdRng) -> (c: char)
    ensures
        is_digit_char(c),
        c != '0',
{
    let digit = gen_range(rng, 1, 10);
    digit_to_char(digit)
}

/// A random digit from `0` to `9`.
pub fn random_digit(rng: &mut StdRng) -> (c: char)
    ensures
        is_digit_char(c),
{
    let digit = gen_range(rng, 0, 10);
    digit_to_char(digit)
}

/// A random string of `len` digits, or of one to four digits where `len` is
/// `None`. The first digit is not `0`.
pub fn random_integer_string(rng: &mut StdRng, len: Option<usize>) -> (s: String)
    ensures
        all_digits(s@),
        len matches Some(n) ==> s@.len() == n,
        len is None ==> 1 <= s@.len() <= 4,
        s@.len() > 0 ==> s@[0] != '0',
{
    let len = match len {
        Some(len) => len,
        None => gen_range(rng, 1, 5),
    };
    let mut s = String::new();
    let mut i: usize = 0;
    while i < len
        invariant
            i <= len,
            s@.len() == i,
            all_digits(s@),
            s@.len() > 0 ==> s@[0] != '0',
        decreases len - i,
    {
        let c = if i == 0 {
            random_non_zero_digit(rng)
        } else {
            random_digit(rng)
        };
        s.push(c);
        i += 1;
    }
    s
}

/// A random decimal below one: `0.` followed by a random string of `len`
/// digits, or of one to four digits where `len` is `None`.
pub fn random_decimal_string(rng: &mut StdRng, len: Option<usize>) -> (s: String)
    ensures
        s@.len() >= 2,
        s@[0] == '0',
        s@[1] == '.',
        all_digits(s@.skip(2)),
        len matches Some(n) ==> s@.len() == n + 2,
        len is None ==> 3 <= s@.len() <= 6,
        s@.len() > 2 ==> s@[2] != '0',
{
    let digits = random_integer_string(rng, len);
    let mut s = String::new();
    s.push('0');
    s.push('.');
    s.append(digits.as_str());
    proof {
        assert(s@.skip(2) =~= digits@);
        if s@.len() > 2 {
            assert(s@[2] == digits@[0]);
        }
    }
    s
}

/// The numbers that the generator makes: a whole number of one to four
/// digits that does not begin with `0`, or `0` followed by a point and one
/// to four digits of which the first is not `0`. Both profiles take them.
pub open spec fn is_plain_number(n: NumeralView) -> bool {
    &&& n.wf()
    &&& n.frac.len() <= 4
    &&& if n.frac.len() == 0 {
        n.whole.len() <= 4 && n.whole[0] != '0'
    } else {
        n.whole == seq!['0'] && n.frac[0] != '0'
    }
}

/// The number token that the literal `text` writes down.
pub fn as_number_token(text: &str) -> (token: Token)
    requires
        is_literal(text@),
    ensures
        token@ == TokenView::Number(literal_of(text@)),
        token@.wf(),
        token@.text() == text@,
{
    Token::Number(Numeral::parse(text).unwrap())
}

/// A random number token: a decimal below one or a whole number without a
/// leading zero.
pub fn random_number_token(rng: &mut StdRng) -> (token: Token)
    ensures
        token@ is Number,
        is_plain_number(token@->Number_0),
{
    let is_decimal = gen_range(rng, 0, 2) == 1;
    if is_decimal {
        let s = random_decimal_string(rng, None);
        proof {
            assert(s@.take(1) =~= seq!['0']);
            lemma_pointed_literal(s@, 1);
            assert(s@.skip(2)[0] == s@[2]);
        }
        as_number_token(s.as_str())
    } else {
        let s = random_integer_string(rng, None);
        proof {
            lemma_digits_are_literal(s@);
        }
        as_number_token(s.as_str())
    }
}

/// A random operator.
pub fn random_operator(rng: &mut StdRng) -> OperatorKind {
    // Which of the four operators comes is the generator's choice, and each
    // of them can come: nothing is promised of the result. The generator
    // draws a place among the four, and `operator_from_index` says which
    // operator stands at each place.
    let index = gen_range(rng, 0, 4);

    operator_from_index(index)
}

/// A random operator token.
pub fn random_operator_token(rng: &mut StdRng) -> (token: Token)
    ensures
        token@ is Operator,
{
    Token::Operator(random_operator(rng))
}

/// The text of a token.
pub fn token_to_string(token: &Token) -> (s: String)
    ensures
        s@ == token@.text(),
{
    match token {
        Token::Number(n) => n.to_string(),
        Token::Operator(kind) => {
            let mut s = String::new();
            s.push(
                match kind {
                    OperatorKind::Add => '+',
                    OperatorKind::Subtract => '-',
                    OperatorKind::Multiply => '*',
                    OperatorKind::Divide => '/',
                },
            );
            s
        },
        Token::Whitespace => {
            let mut s = String::new();
            s.push(' ');
            s
        },
    }
}

/// Puts spaces between the tokens: one fewer than there are tokens, each at
/// a random place after the first token and before the last. The tokens
/// stay as they are and in their order.
pub fn pad_with_random_whitespaces(rng: &mut StdRng, tokens: &mut Vec<Token>)
    ensures
        old(tokens)@.len() <= 1 ==> final(tokens)@ == old(tokens)@,
        old(tokens)@.len() > 1 ==> final(tokens)@.len() == 2 * old(tokens)@.len() - 1,
        is_spaced(views(old(tokens)@), views(final(tokens)@)),
        old(tokens)@.len() > 0 ==> final(tokens)@.first()@ == old(tokens)@.first()@
            && final(tokens)@.last()@ == old(tokens)@.last()@,
        significant(views(final(tokens)@)) == significant(views(old(tokens)@)),
        last_significant(views(final(tokens)@)) == last_significant(views(old(tokens)@)),
        forall|profile: Profile| #[trigger]
            is_expression_prefix(profile, views(old(tokens)@)) ==> is_expression_prefix(
                profile,
                views(final(tokens)@),
            ),
        forall|profile: Profile| #[trigger]
            is_expression(profile, views(old(tokens)@)) ==> is_expression(
                profile,
                views(final(tokens)@),
            ),
{
    proof {
        lemma_spaced_reflexive(views(tokens@));
    }
    if tokens.len() > 1 {
        let count = tokens.len() - 1;
        let mut k: usize = 0;
        while k < count
            invariant
                k <= count,
                count == old(tokens)@.len() - 1,
                tokens@.len() == old(tokens)@.len() + k,
                is_spaced(views(old(tokens)@), views(tokens@)),
                tokens@.first()@ == old(tokens)@.first()@,
                tokens@.last()@ == old(tokens)@.last()@,
                significant(views(tokens@)) == significant(views(old(tokens)@)),
                last_significant(views(tokens@)) == last_significant(views(old(tokens)@)),
                forall|profile: Profile| #[trigger]
                    is_expression_prefix(profile, views(old(tokens)@))
                        ==> is_expression_prefix(profile, views(tokens@)),
            decreases count - k,
        {
            let pos = gen_range(rng, 1, tokens.len());
            let ghost before = views(tokens@);
            proof {
                lemma_views_insert(tokens@, pos as int, Token::Whitespace);
                lemma_spaced_insert(views(old(tokens)@), before, pos as int);
                lemma_insert_space(Profile::Canonical, before, pos as int);
                lemma_insert_space(Profile::Strict, before, pos as int);
            }
            tokens.insert(pos, Token::Whitespace);
            k += 1;
        }
    }
}

/// The text of a token sequence: the texts of its tokens one after the
/// other.
pub fn render_tokens(tokens: &Vec<Token>) -> (s: String)
    ensures
        s@ == render(views(tokens@)),
{
    let mut s = String::new();
    let mut i: usize = 0;
    while i < tokens.len()
        invariant
            i <= tokens@.len(),
            s@ == render(views(tokens@).take(i as int)),
        decreases tokens.len() - i,
    {
        let piece = token_to_string(&tokens[i]);
        s.append(piece.as_str());
        proof {
            let v = views(tokens@);
            assert(v.take(i + 1).drop_last() =~= v.take(i as int));
            assert(v.take(i + 1).last() == tokens@[i as int]@);
        }
        i += 1;
    }
    proof {
        assert(views(tokens@).take(i as int) =~= views(tokens@));
    }
    s
}

/// Puts random spaces between the tokens, as
/// [`pad_with_random_whitespaces`] does, and gives the text of the result.
/// Where the tokens were an expression, the text is lexed into the tokens as
/// they are afterwards.
pub fn token_list_to_string(rng: &mut StdRng, tokens: &mut Vec<Token>) -> (s: String)
    ensures
        s@ == render(views(final(tokens)@)),
        old(tokens)@.len() <= 1 ==> final(tokens)@ == old(tokens)@,
        old(tokens)@.len() > 1 ==> final(tokens)@.len() == 2 * old(tokens)@.len() - 1,
        is_spaced(views(old(tokens)@), views(final(tokens)@)),
        old(tokens)@.len() > 0 ==> final(tokens)@.first()@ == old(tokens)@.first()@
            && final(tokens)@.last()@ == old(tokens)@.last()@,
        significant(views(final(tokens)@)) == significant(views(old(tokens)@)),
        forall|profile: Profile| #[trigger]
            is_expression(profile, views(old(tokens)@)) ==> tokenize_spec(profile, s@) == Ok::<
                Seq<TokenView>,
                LexingError,
            >(views(final(tokens)@)),
{
    pad_with_random_whitespaces(rng, tokens);
    proof {
        if is_expression(Profile::Canonical, views(tokens@)) {
            lemma_tokenize_rendered(Profile::Canonical, views(tokens@));
        }
        if is_expression(Profile::Strict, views(tokens@)) {
            lemma_tokenize_rendered(Profile::Strict, views(tokens@));
        }
    }
    render_tokens(tokens)
}

/// Random numbers joined by random operators, without spaces:
/// `operator_count` numbers, or one to four where it is `None`.
pub fn random_valid_token_sequence(rng: &mut StdRng, operator_count: Option<usize>) -> (tokens:
    Vec<Token>)
    ensures
        operator_count matches Some(n) ==> tokens@.len() == (if n == 0 {
            0
        } else {
            2 * n - 1
        }),
        operator_count is None ==> tokens@.len() % 2 == 1 && tokens@.len() <= 7,
        forall|i: int|
            0 <= i < tokens@.len() ==> if i % 2 == 0 {
                (#[trigger] tokens@[i])@ is Number && is_plain_number(tokens@[i]@->Number_0)
            } else {
                tokens@[i]@ is Operator
            },
        significant(views(tokens@)) == views(tokens@),
        tokens@.len() > 0 ==> is_expression(Profile::Strict, views(tokens@)),
        tokens@.len() > 0 ==> is_expression(Profile::Canonical, views(tokens@)),
{
    let count = match operator_count {
        Some(count) => count,
        None => gen_range(rng, 1, 5),
    };
    let mut tokens: Vec<Token> = Vec::new();
    let mut i: usize = 0;
    assert(views(tokens@) =~= Seq::<TokenView>::empty());
    while i < count
        invariant
            i <= count,
            tokens@.len() == (if i == 0 {
                0
            } else {
                2 * i - 1
            }),
            forall|j: int|
                0 <= j < tokens@.len() ==> if j % 2 == 0 {
                    (#[trigger] tokens@[j])@ is Number && is_plain_number(tokens@[j]@->Number_0)
                } else {
                    tokens@[j]@ is Operator
                },
            significant(views(tokens@)) == views(tokens@),
            is_expression_prefix(Profile::Strict, views(tokens@)),
            i > 0 ==> is_expression(Profile::Strict, views(tokens@)),
        decreases count - i,
    {
        if i != 0 {
            let ghost before = views(tokens@);
            let operator = random_operator_token(rng);
            tokens.push(operator);
            proof {
                let now = views(tokens@);
                assert(now =~= before.push(operator@));
                assert(now.drop_last() =~= before);
                assert(significant(now) == now);
                assert(last_significant(now) == Some(operator@));
                assert(is_expression_prefix(Profile::Strict, now));
            }
        }
        let ghost before = views(tokens@);
        let number = random_number_token(rng);
        tokens.push(number);
        proof {
            let now = views(tokens@);
            assert(now =~= before.push(number@));
            assert(now.drop_last() =~= before);
            assert(significant(now) == now);
            assert(last_significant(now) == Some(number@));
            assert(is_expression_prefix(Profile::Strict, now));
        }
        i += 1;
    }
    proof {
        lemma_strict_is_canonical(views(tokens@));
    }
    tokens
}

/// A random even number below `before`.
pub fn random_even_number_under(rng: &mut StdRng, before: usize) -> (n: usize)
    requires
        before > 0,
    ensures
        n % 2 == 0,
        n < before,
{
    let count = before / 2 + before % 2;
    let index = gen_range(rng, 0, count);
    even_number_at(index)
}

/// The even number at place `index` among the even numbers, counted from
/// zero: `0`, `2`, `4` and so on.
pub fn even_number_at(index: usize) -> (n: usize)
    requires
        2 * index <= usize::MAX,
    ensures
        n == 2 * index,
{
    index * 2
}

/// The operator at place `index` of the four: subtract, add, divide,
/// multiply.
pub open spec fn operator_at(index: int) -> OperatorKind {
    if index == 0 {
        OperatorKind::Subtract
    } else if index == 1 {
        OperatorKind::Add
    } else if index == 2 {
        OperatorKind::Divide
    } else {
        OperatorKind::Multiply
    }
}

/// The operator at place `index` of the four, counted from zero.
pub fn operator_from_index(index: usize) -> (kind: OperatorKind)
    requires
        index < 4,
    ensures
        kind == operator_at(index as int),
{
    match index {
        0 => OperatorKind::Subtract,
        1 => OperatorKind::Add,
        2 => OperatorKind::Divide,
        _ => OperatorKind::Multiply,
    }
}

/// The views of a token sequence with a token put in are the views of the
/// sequence with the view of the token put in.
proof fn lemma_views_insert(tokens: Seq<Token>, pos: int, token: Token)
    requires
        0 <= pos <= tokens.len(),
    ensures
        views(tokens.insert(pos, token)) == views(tokens).insert(pos, token@),
{
    assert(views(tokens.insert(pos, token)) =~= views(tokens).insert(pos, token@));
}

/// Putting a token into the part before a given token, or into the part
/// after it, is putting it into the whole.
proof fn lemma_insert_around<A>(a: Seq<A>, x: A, b: Seq<A>, pos: int, t: A)
    requires
        0 <= pos <= a.len() + 1 + b.len(),
    ensures
        pos <= a.len() ==> a.insert(pos, t) + seq![x] + b == (a + seq![x] + b).insert(pos, t),
        pos > a.len() ==> a + seq![x] + b.insert(pos - a.len() - 1, t) == (a + seq![x]
            + b).insert(pos, t),
{
    if pos <= a.len() {
        assert(a.insert(pos, t) + seq![x] + b =~= (a + seq![x] + b).insert(pos, t));
    } else {
        assert(a + seq![x] + b.insert(pos - a.len() - 1, t) =~= (a + seq![x] + b).insert(
            pos,
            t,
        ));
    }
}

/// Whether `text` is the text of the expression `before`, `number`, `after`
/// in which the number token `number` is written as `replacement`.
pub open spec fn is_number_replaced(
    text: Seq<char>,
    replacement: Seq<char>,
    before: Seq<TokenView>,
    number: TokenView,
    after: Seq<TokenView>,
) -> bool {
    &&& number is Number
    &&& is_expression(Profile::Strict, before + seq![number] + after)
    &&& text == render(before) + replacement + render(after)
}

/// The text of a random expression, with random spaces between its tokens,
/// in which one number, chosen at random, is written as `replacement`.
pub fn random_valid_token_sequence_with_replaced_number(
    rng: &mut StdRng,
    replacement: String,
) -> (text: String)
    ensures
        exists|before: Seq<TokenView>, number: TokenView, after: Seq<TokenView>|
            is_number_replaced(text@, replacement@, before, number, after),
{
    let mut before = random_valid_token_sequence(rng, None);
    let ghost whole = views(before@);
    let index = random_even_number_under(rng, before.len());
    let mut after = before.split_off(index);
    let number = after.remove(0);
    assert(views(before@) + seq![number@] + views(after@) =~= whole);
    let count = before.len() + after.len();
    let mut k: usize = 0;
    while k < count
        invariant
            k <= count <= 6,
            before@.len() + after@.len() == count + k,
            number@ is Number,
            is_expression(Profile::Strict, views(before@) + seq![number@] + views(after@)),
        decreases count - k,
    {
        let pos = gen_range(rng, 1, before.len() + 1 + after.len());
        let ghost joined = views(before@) + seq![number@] + views(after@);
        proof {
            lemma_insert_around(
                views(before@),
                number@,
                views(after@),
                pos as int,
                TokenView::Whitespace,
            );
            lemma_insert_space(Profile::Strict, joined, pos as int);
        }
        if pos <= before.len() {
            proof {
                lemma_views_insert(before@, pos as int, Token::Whitespace);
            }
            before.insert(pos, Token::Whitespace);
        } else {
            proof {
                lemma_views_insert(after@, pos - before@.len() - 1, Token::Whitespace);
            }
            after.insert(pos - before.len() - 1, Token::Whitespace);
        }
        k += 1;
    }
    let mut text = render_tokens(&before);
    text.append(replacement.as_str());
    let tail = render_tokens(&after);
    text.append(tail.as_str());
    proof {
        assert(is_number_replaced(
            text@,
            replacement@,
            views(before@),
            number@,
            views(after@),
        ));
    }
    text
}

/// Where the replacement is a literal that the profile takes, the text is
/// lexed into the expression with that number in the place of the old one.
pub proof fn lemma_replaced_by_literal(
    profile: Profile,
    text: Seq<char>,
    replacement: Seq<char>,
    before: Seq<TokenView>,
    number: TokenView,
    after: Seq<TokenView>,
)
    requires
        is_number_replaced(text, replacement, before, number, after),
        is_literal(replacement),
        profile.admits(literal_of(replacement)),
    ensures
        tokenize_spec(profile, text) == Ok::<Seq<TokenView>, LexingError>(
            before + seq![TokenView::Number(literal_of(replacement))] + after,
        ),
{
    let other = TokenView::Number(literal_of(replacement));
    let tokens = before + seq![other] + after;
    lemma_literal_is_text(replacement);
    if profile == Profile::Canonical {
        lemma_strict_is_canonical(before + seq![number] + after);
    }
    lemma_replace_number(profile, before, number, other, after);
    lemma_render_concat(before + seq![other], after);
    lemma_render_concat(before, seq![other]);
    assert(seq![other].drop_last() =~= Seq::<TokenView>::empty());
    assert(render(seq![other].drop_last()) =~= Seq::<char>::empty());
    assert(render(seq![other]) =~= replacement);
    lemma_tokenize_rendered(profile, tokens);
}

} // verus!
