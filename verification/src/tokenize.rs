//! Lexing a whole string: the model of a left-to-right scan, and the
//! functions that carry it out.

use crate::error::LexingError;
use crate::grammar::is_expression;
use crate::laws::{lemma_scan_is_faithful, lemma_tokens_render_input};
use crate::lexer::{Lexer, LexerView, Profile, State};
use crate::token::{render, views, Token, TokenView};
use vstd::prelude::*;

verus! {

/// How far a scan has come: the lexer, the tokens handed out so far, and the
/// error that stopped the scan, if one did.
pub struct Scan {
    pub lexer: LexerView,
    pub tokens: Seq<TokenView>,
    pub error: Option<LexingError>,
}

impl Scan {
    /// The scan before anything is read.
    pub open spec fn start(profile: Profile) -> Scan {
        Scan { lexer: LexerView::initial(profile), tokens: Seq::empty(), error: None }
    }

    /// The scan after one more input, where `None` is the end of the input.
    /// A scan that an error has stopped stays as it is.
    pub open spec fn feed(self, input: Option<char>) -> Scan {
        if self.error is Some {
            self
        } else {
            let step = self.lexer.step(input);
            match step.output {
                Ok(None) => Scan { lexer: step.next, tokens: self.tokens, error: None },
                Ok(Some(token)) => Scan {
                    lexer: step.next,
                    tokens: self.tokens.push(token),
                    error: None,
                },
                Err(e) => Scan { lexer: step.next, tokens: self.tokens, error: Some(e) },
            }
        }
    }
}

/// The scan after the characters of `s` have been fed from left to right to
/// a lexer of the given profile.
pub open spec fn scan(profile: Profile, s: Seq<char>) -> Scan
    decreases s.len(),
{
    if s.len() == 0 {
        Scan::start(profile)
    } else {
        scan(profile, s.drop_last()).feed(Some(s.last()))
    }
}

/// What lexing the whole of `s` gives: the tokens in the order in which they
/// are handed out, or the first error.
pub open spec fn tokenize_spec(profile: Profile, s: Seq<char>) -> Result<
    Seq<TokenView>,
    LexingError,
> {
    let end = scan(profile, s).feed(None);
    match end.error {
        Some(e) => Err(e),
        None => Ok(end.tokens),
    }
}

/// An error that stops the scan of a part of the input from its start is
/// the error of every longer part: what comes after cannot change it.
pub proof fn lemma_scan_error_persists(profile: Profile, s: Seq<char>, k: int)
    requires
        0 <= k <= s.len(),
        scan(profile, s.take(k)).error is Some,
    ensures
        scan(profile, s).error == scan(profile, s.take(k)).error,
    decreases s.len() - k,
{
    if k == s.len() {
        assert(s.take(k) =~= s);
    } else {
        assert(s.take(k + 1).drop_last() =~= s.take(k));
        lemma_scan_error_persists(profile, s, k + 1);
    }
}

/// Lexes a whole expression with the canonical profile. Feeds the lexer
/// every character of `string` and then the end of the input, and gives the
/// tokens in the order in which they were handed out. Stops at the first
/// error and gives that error alone.
///
/// The input is taken if and only if it is the text of an expression, and
/// the tokens are then those of that expression, spaces included.
pub fn tokenize(string: &str) -> (r: Result<Vec<Token>, LexingError>)
    ensures
        match r {
            Ok(tokens) => tokenize_spec(Profile::Canonical, string@) == Ok::<
                Seq<TokenView>,
                LexingError,
            >(views(tokens@)),
            Err(e) => tokenize_spec(Profile::Canonical, string@) == Err::<
                Seq<TokenView>,
                LexingError,
            >(e),
        },
        r matches Ok(tokens) ==> is_expression(Profile::Canonical, views(tokens@)) && render(
            views(tokens@),
        ) == string@,
{
    tokenize_with(string, Profile::Canonical)
}

/// Lexes a whole expression as [`tokenize`] does, with the profile given.
pub fn tokenize_with(string: &str, profile: Profile) -> (r: Result<Vec<Token>, LexingError>)
    ensures
        match r {
            Ok(tokens) => tokenize_spec(profile, string@) == Ok::<Seq<TokenView>, LexingError>(
                views(tokens@),
            ),
            Err(e) => tokenize_spec(profile, string@) == Err::<Seq<TokenView>, LexingError>(e),
        },
        r matches Ok(tokens) ==> is_expression(profile, views(tokens@)) && render(
            views(tokens@),
        ) == string@,
{
    broadcast use vstd::string::group_string_axioms;

    let mut tokens: Vec<Token> = Vec::new();
    let mut lexer = Lexer::with_profile(profile);
    assert(views(tokens@) =~= Seq::<TokenView>::empty());
    for c in it: string.chars()
        invariant
            it.seq() == string@,
            scan(profile, string@.take(it.index())) == (Scan {
                lexer: lexer@,
                tokens: views(tokens@),
                error: None,
            }),
    {
        let ghost i = it.index();
        let ghost before = views(tokens@);
        proof {
            assert(string@.take(i + 1).drop_last() =~= string@.take(i));
        }
        match lexer.feed(Some(c)) {
            Err(e) => {
                proof {
                    lemma_scan_error_persists(profile, string@, i + 1);
                }
                return Err(e);
            },
            Ok(Some(token)) => {
                tokens.push(token);
                proof {
                    assert(views(tokens@) =~= before.push(token@));
                }
            },
            Ok(None) => {},
        }
    }
    proof {
        assert(string@.take(string@.len() as int) =~= string@);
    }
    let ghost before = views(tokens@);
    match lexer.feed(None) {
        Err(e) => Err(e),
        Ok(last) => {
            if let Some(token) = last {
                tokens.push(token);
                proof {
                    assert(views(tokens@) =~= before.push(token@));
                }
            }
            proof {
                lemma_scan_is_faithful(profile, string@);
                lemma_tokens_render_input(profile, string@);
                assert(lexer@.state == State::End);
            }
            Ok(tokens)
        },
    }
}

} // verus!
