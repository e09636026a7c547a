//! The expressions that the lexer accepts, described over their tokens.

use crate::lexer::Profile;
use crate::token::{render, TokenView};
use vstd::prelude::*;

verus! {

/// The last token of `tokens` that is not a space, if there is one.
pub open spec fn last_significant(tokens: Seq<TokenView>) -> Option<TokenView>
    decreases tokens.len(),
{
    if tokens.len() == 0 {
        None
    } else if tokens.last() is Whitespace {
        last_significant(tokens.drop_last())
    } else {
        Some(tokens.last())
    }
}

/// The tokens of `tokens` that are not spaces, in their order.
pub open spec fn significant(tokens: Seq<TokenView>) -> Seq<TokenView>
    decreases tokens.len(),
{
    if tokens.len() == 0 {
        Seq::empty()
    } else if tokens.last() is Whitespace {
        significant(tokens.drop_last())
    } else {
        significant(tokens.drop_last()).push(tokens.last())
    }
}

/// Whether `token` may come after the tokens `before`. A number, which the
/// profile must take, comes first or after an operator, whatever spaces lie
/// between. An operator comes after a number, whatever spaces lie between.
/// A space comes anywhere but first.
pub open spec fn may_follow(profile: Profile, before: Seq<TokenView>, token: TokenView) -> bool {
    match token {
        TokenView::Number(n) => {
            &&& n.wf()
            &&& profile.admits(n)
            &&& before.len() == 0 || last_significant(before) is Some && last_significant(
                before,
            )->0 is Operator
        },
        TokenView::Operator(_) => last_significant(before) is Some && last_significant(
            before,
        )->0 is Number,
        TokenView::Whitespace => before.len() > 0,
    }
}

/// Whether `tokens` can be the beginning of an expression: each token may
/// follow those before it.
pub open spec fn is_expression_prefix(profile: Profile, tokens: Seq<TokenView>) -> bool
    decreases tokens.len(),
{
    tokens.len() == 0 || (is_expression_prefix(profile, tokens.drop_last()) && may_follow(
        profile,
        tokens.drop_last(),
        tokens.last(),
    ))
}

/// Whether `tokens` are a whole expression: numbers joined by operators,
/// with any number of spaces after each of them, where the last token that
/// is not a space is a number.
pub open spec fn is_expression(profile: Profile, tokens: Seq<TokenView>) -> bool {
    &&& is_expression_prefix(profile, tokens)
    &&& last_significant(tokens) is Some
    &&& last_significant(tokens)->0 is Number
}

/// What begins an expression of the strict profile begins one of the
/// canonical profile.
pub proof fn lemma_strict_is_canonical(tokens: Seq<TokenView>)
    requires
        is_expression_prefix(Profile::Strict, tokens),
    ensures
        is_expression_prefix(Profile::Canonical, tokens),
    decreases tokens.len(),
{
    if tokens.len() > 0 {
        lemma_strict_is_canonical(tokens.drop_last());
    }
}

/// A space put anywhere into a token sequence leaves the tokens that are
/// not spaces as they are. Put anywhere but first, it leaves the beginning
/// of an expression the beginning of one.
pub proof fn lemma_insert_space(profile: Profile, tokens: Seq<TokenView>, pos: int)
    requires
        0 <= pos <= tokens.len(),
    ensures
        significant(tokens.insert(pos, TokenView::Whitespace)) == significant(tokens),
        last_significant(tokens.insert(pos, TokenView::Whitespace)) == last_significant(tokens),
        pos >= 1 && is_expression_prefix(profile, tokens) ==> is_expression_prefix(
            profile,
            tokens.insert(pos, TokenView::Whitespace),
        ),
    decreases tokens.len(),
{
    let spaced = tokens.insert(pos, TokenView::Whitespace);
    if pos == tokens.len() {
        assert(spaced.drop_last() =~= tokens);
    } else {
        assert(spaced.drop_last() =~= tokens.drop_last().insert(pos, TokenView::Whitespace));
        assert(spaced.last() == tokens.last());
        lemma_insert_space(profile, tokens.drop_last(), pos);
    }
}

/// The text of two token sequences, one after the other, is the text of the
/// first followed by the text of the second.
pub proof fn lemma_render_concat(a: Seq<TokenView>, b: Seq<TokenView>)
    ensures
        render(a + b) == render(a) + render(b),
    decreases b.len(),
{
    if b.len() == 0 {
        assert(a + b =~= a);
        assert(render(a) + render(b) =~= render(a));
    } else {
        assert((a + b).drop_last() =~= a + b.drop_last());
        lemma_render_concat(a, b.drop_last());
        assert(render(a + b) =~= render(a) + render(b));
    }
}

/// Whether `spaced` is `unspaced` with spaces put between its tokens, before
/// them or after them: taking spaces out of `spaced` can give `unspaced`.
pub open spec fn is_spaced(unspaced: Seq<TokenView>, spaced: Seq<TokenView>) -> bool
    decreases spaced.len(),
{
    if spaced.len() == 0 {
        unspaced.len() == 0
    } else {
        ||| unspaced.len() > 0 && spaced.last() == unspaced.last() && is_spaced(
            unspaced.drop_last(),
            spaced.drop_last(),
        )
        ||| spaced.last() is Whitespace && is_spaced(unspaced, spaced.drop_last())
    }
}

/// A token sequence is itself with no spaces put in.
pub proof fn lemma_spaced_reflexive(tokens: Seq<TokenView>)
    ensures
        is_spaced(tokens, tokens),
    decreases tokens.len(),
{
    if tokens.len() > 0 {
        lemma_spaced_reflexive(tokens.drop_last());
    }
}

/// One more space, put anywhere, leaves a spaced sequence a spaced sequence
/// of the same tokens.
pub proof fn lemma_spaced_insert(unspaced: Seq<TokenView>, spaced: Seq<TokenView>, pos: int)
    requires
        is_spaced(unspaced, spaced),
        0 <= pos <= spaced.len(),
    ensures
        is_spaced(unspaced, spaced.insert(pos, TokenView::Whitespace)),
    decreases spaced.len(),
{
    let wider = spaced.insert(pos, TokenView::Whitespace);
    if pos == spaced.len() {
        assert(wider.drop_last() =~= spaced);
    } else {
        assert(wider.drop_last() =~= spaced.drop_last().insert(pos, TokenView::Whitespace));
        assert(wider.last() == spaced.last());
        if unspaced.len() > 0 && spaced.last() == unspaced.last() && is_spaced(
            unspaced.drop_last(),
            spaced.drop_last(),
        ) {
            lemma_spaced_insert(unspaced.drop_last(), spaced.drop_last(), pos);
        } else {
            lemma_spaced_insert(unspaced, spaced.drop_last(), pos);
        }
    }
}

/// Another number in the place of a number of an expression, one that the
/// profile takes, leaves an expression.
pub proof fn lemma_replace_number(
    profile: Profile,
    before: Seq<TokenView>,
    number: TokenView,
    other: TokenView,
    after: Seq<TokenView>,
)
    requires
        is_expression_prefix(profile, before + seq![number] + after),
        number is Number,
        other is Number,
        other.wf(),
        profile.admits(other->Number_0),
    ensures
        is_expression_prefix(profile, before + seq![other] + after),
        last_significant(before + seq![other] + after) is Some,
        last_significant(before + seq![number] + after) is Some,
        last_significant(before + seq![other] + after)->0 is Number <==> last_significant(
            before + seq![number] + after,
        )->0 is Number,
        last_significant(before + seq![other] + after)->0 is Operator <==> last_significant(
            before + seq![number] + after,
        )->0 is Operator,
    decreases after.len(),
{
    let old_tokens = before + seq![number] + after;
    let new_tokens = before + seq![other] + after;
    if after.len() == 0 {
        assert(old_tokens.drop_last() =~= before);
        assert(new_tokens.drop_last() =~= before);
    } else {
        assert(old_tokens.drop_last() =~= before + seq![number] + after.drop_last());
        assert(new_tokens.drop_last() =~= before + seq![other] + after.drop_last());
        lemma_replace_number(profile, before, number, other, after.drop_last());
    }
}

} // verus!
