//! The lexing state machine: its states, its transition function as a
//! mathematical model, and the executable lexer that follows that model.

use crate::error::{ExpressionLexingError, LexingError, NumberLexingError};
use crate::numeral::{
    all_digits, first_point, frac_part, is_digit, is_digit_char, is_literal,
    lemma_digits_are_literal, lemma_first_point_unique, lemma_push_after_point, literal_of,
    whole_part, Numeral, NumeralView,
};
use crate::token::{get_operator_kind, operator_of, OperatorKind, Token, TokenView};
use vstd::prelude::*;

verus! {

/// Where the lexer stands in an expression.
#[derive(Copy, Clone, PartialEq, Eq, Debug, Structural)]
pub enum State {
    /// Nothing has been read yet.
    Initial,
    /// Reading the digits before an optional decimal point.
    NumberIntegers,
    /// A decimal point has just been read.
    NumberPoint,
    /// Reading the digits after the decimal point.
    NumberDecimals,
    /// One or more spaces have been read after a number.
    WhitespaceBeforeOperator,
    /// An operator has just been read.
    Operator(OperatorKind),
    /// One or more spaces have been read after an operator.
    WhitespaceAfterOperator,
    /// The end of the input has been read, and the expression was complete.
    End,
    /// An error has been reported.
    Error,
}

/// Which numbers a lexer takes. It is chosen when the lexer is made.
#[derive(Copy, Clone, PartialEq, Eq, Debug, Structural)]
pub enum Profile {
    /// One or more digits, optionally followed by a point and one or more
    /// digits. Leading zeros are taken.
    Canonical,
    /// Of the canonical numbers only `0`, the whole numbers that do not
    /// begin with `0`, and `0` followed by a point and digits.
    Strict,
}

impl Profile {
    /// Whether the profile takes the numeral `n`.
    pub open spec fn admits(self, n: NumeralView) -> bool {
        self == Profile::Strict ==> n.whole == seq!['0'] || (n.whole.len() > 0 && n.whole[0] != '0'
            && n.frac.len() == 0)
    }
}

/// The mathematical view of a [`Lexer`]: its profile, its state and the
/// characters of the number that it is in the middle of.
pub struct LexerView {
    pub profile: Profile,
    pub state: State,
    pub pending: Seq<char>,
}

/// What one call of [`Lexer::feed`] does: the lexer afterwards, and what the
/// call returns.
pub struct Step {
    pub next: LexerView,
    pub output: Result<Option<TokenView>, LexingError>,
}

/// The error for a character that cannot come where it stands.
pub open spec fn unexpected(c: char) -> LexingError {
    LexingError::IncorrectExpression(ExpressionLexingError::UnexpectedCharacter(c))
}

/// The error for an input that ends where a number is still owed.
pub open spec fn unexpected_eoi() -> LexingError {
    LexingError::IncorrectExpression(ExpressionLexingError::UnexpectedEOI)
}

/// The error for a decimal point that no digit follows.
pub open spec fn expected_digit() -> LexingError {
    LexingError::IncorrectNumber(NumberLexingError::ExpectedDigitAfterPoint)
}

/// The error of the strict profile for a point after digits other than a
/// single zero.
pub open spec fn non_zero_before_point() -> LexingError {
    LexingError::IncorrectNumber(NumberLexingError::NonZeroIntegerBeforePoint)
}

/// The error of the strict profile for a point where a number begins.
pub open spec fn missing_integer() -> LexingError {
    LexingError::IncorrectNumber(NumberLexingError::MissingIntegerBeforePoint)
}

/// The error of the strict profile for a digit after a leading zero.
pub open spec fn expected_point() -> LexingError {
    LexingError::IncorrectNumber(NumberLexingError::ExpectedPointAfterZero)
}

/// The error for the character `c`, which is no digit, where a number
/// begins. The strict profile has an error of its own for a point.
pub open spec fn no_number(profile: Profile, c: char) -> LexingError {
    if c == '.' && profile == Profile::Strict {
        missing_integer()
    } else {
        unexpected(c)
    }
}

impl LexerView {
    /// A lexer of the given profile that has read nothing.
    pub open spec fn initial(profile: Profile) -> LexerView {
        LexerView { profile, state: State::Initial, pending: Seq::empty() }
    }

    /// Whether the lexer is strict.
    pub open spec fn strict(self) -> bool {
        self.profile == Profile::Strict
    }

    /// Whether the lexer has stopped, by success or by error.
    pub open spec fn is_terminal(self) -> bool {
        self.state == State::End || self.state == State::Error
    }

    /// The pending characters are what the state says has been read of a
    /// number, and there are none outside a number. In a strict lexer they
    /// begin a number of the strict profile.
    pub open spec fn wf(self) -> bool {
        &&& self.pending_fits_state()
        &&& self.strict() ==> self.pending_is_strict()
    }

    /// The pending characters are what the state says has been read of a
    /// number, and there are none outside a number.
    pub open spec fn pending_fits_state(self) -> bool {
        match self.state {
            State::NumberIntegers => self.pending.len() > 0 && all_digits(self.pending),
            State::NumberPoint => {
                &&& self.pending.len() >= 2
                &&& self.pending.last() == '.'
                &&& all_digits(self.pending.drop_last())
            },
            State::NumberDecimals => {
                &&& is_literal(self.pending)
                &&& first_point(self.pending) < self.pending.len()
            },
            State::Error => true,
            _ => self.pending.len() == 0,
        }
    }

    /// The pending characters begin a number of the strict profile.
    pub open spec fn pending_is_strict(self) -> bool {
        match self.state {
            State::NumberIntegers => self.pending == seq!['0'] || self.pending[0] != '0',
            State::NumberPoint => self.pending == seq!['0', '.'],
            State::NumberDecimals => whole_part(self.pending) == seq!['0'],
            _ => true,
        }
    }

    /// Takes the character `c` into the pending number and moves to `state`,
    /// handing out `token`, if any.
    pub open spec fn shift(self, state: State, c: char, token: Option<TokenView>) -> Step {
        Step {
            next: LexerView { profile: self.profile, state, pending: self.pending.push(c) },
            output: Ok(token),
        }
    }

    /// Hands out the pending number and moves to `state`.
    pub open spec fn emit_number(self, state: State) -> Step {
        Step {
            next: LexerView { profile: self.profile, state, pending: Seq::empty() },
            output: Ok(Some(TokenView::Number(literal_of(self.pending)))),
        }
    }

    /// Hands out `token` and moves to `state`.
    pub open spec fn emit(self, state: State, token: TokenView) -> Step {
        Step {
            next: LexerView { profile: self.profile, state, pending: self.pending },
            output: Ok(Some(token)),
        }
    }

    /// Reports `error` and stops.
    pub open spec fn fail(self, error: LexingError) -> Step {
        Step {
            next: LexerView { profile: self.profile, state: State::Error, pending: self.pending },
            output: Err(error),
        }
    }

    /// The transition function: what feeding `input` does, where `None` is
    /// the end of the input.
    pub open spec fn step(self, input: Option<char>) -> Step {
        match self.state {
            State::End | State::Error => Step { next: self, output: Ok(None) },
            State::Initial => match input {
                None => self.fail(unexpected_eoi()),
                Some(c) => if is_digit_char(c) {
                    self.shift(State::NumberIntegers, c, None)
                } else {
                    self.fail(no_number(self.profile, c))
                },
            },
            State::NumberIntegers => match input {
                None => self.emit_number(State::End),
                Some(c) => if is_digit_char(c) {
                    if self.strict() && self.pending == seq!['0'] {
                        self.fail(expected_point())
                    } else {
                        self.shift(State::NumberIntegers, c, None)
                    }
                } else if c == '.' {
                    if self.strict() && self.pending != seq!['0'] {
                        self.fail(non_zero_before_point())
                    } else {
                        self.shift(State::NumberPoint, c, None)
                    }
                } else {
                    self.end_number(c)
                },
            },
            State::NumberPoint => match input {
                None => self.fail(expected_digit()),
                Some(c) => if is_digit_char(c) {
                    self.shift(State::NumberDecimals, c, None)
                } else {
                    self.fail(expected_digit())
                },
            },
            State::NumberDecimals => match input {
                None => self.emit_number(State::End),
                Some(c) => if is_digit_char(c) {
                    self.shift(State::NumberDecimals, c, None)
                } else if c == '.' && self.strict() {
                    self.fail(non_zero_before_point())
                } else {
                    self.end_number(c)
                },
            },
            State::WhitespaceBeforeOperator => match input {
                None => self.emit(State::End, TokenView::Whitespace),
                Some(c) => if c == ' ' {
                    self.emit(State::WhitespaceBeforeOperator, TokenView::Whitespace)
                } else if let Some(kind) = operator_of(c) {
                    self.emit(State::Operator(kind), TokenView::Whitespace)
                } else {
                    self.fail(unexpected(c))
                },
            },
            State::Operator(kind) => self.begin_number(input, TokenView::Operator(kind)),
            State::WhitespaceAfterOperator => self.begin_number(input, TokenView::Whitespace),
        }
    }

    /// A number ends at the character `c`, which is neither a digit nor a
    /// point that the number can take: a space or an operator ends it, and
    /// anything else is an error.
    pub open spec fn end_number(self, c: char) -> Step {
        if c == ' ' {
            self.emit_number(State::WhitespaceBeforeOperator)
        } else if let Some(kind) = operator_of(c) {
            self.emit_number(State::Operator(kind))
        } else {
            self.fail(unexpected(c))
        }
    }

    /// After an operator, and the spaces that may follow it, a number is
    /// owed. `held` is the token read last, which is handed out now.
    pub open spec fn begin_number(self, input: Option<char>, held: TokenView) -> Step {
        match input {
            None => self.fail(unexpected_eoi()),
            Some(c) => if c == ' ' {
                self.emit(State::WhitespaceAfterOperator, held)
            } else if is_digit_char(c) {
                self.shift(State::NumberIntegers, c, Some(held))
            } else {
                self.fail(no_number(self.profile, c))
            },
        }
    }
}

/// The transition function keeps a well-formed lexer well formed, and what
/// it hands out is well formed.
pub proof fn lemma_step_wf(m: LexerView, input: Option<char>)
    requires
        m.wf(),
    ensures
        m.step(input).next.wf(),
        m.step(input).output matches Ok(Some(token)) ==> token.wf(),
        m.step(input).output matches Ok(Some(TokenView::Number(n))) ==> m.profile.admits(n),
{
    let next = m.step(input).next;
    match m.state {
        State::NumberIntegers => {
            lemma_digits_are_literal(m.pending);
            if let Some(c) = input {
                if is_digit_char(c) {
                    assert(all_digits(m.pending.push(c)));
                } else if c == '.' {
                    assert(m.pending.push(c).drop_last() =~= m.pending);
                }
            }
        },
        State::NumberPoint => {
            if let Some(c) = input {
                if is_digit_char(c) {
                    let w = m.pending.drop_last();
                    lemma_digits_are_literal(w);
                    assert(m.pending =~= w.push('.'));
                    assert forall|i: int| 0 <= i < w.len() implies #[trigger] m.pending[i]
                        != '.' by {
                        assert(m.pending[i] == w[i]);
                        assert(is_digit_char(w[i]));
                    }
                    lemma_first_point_unique(m.pending, w.len() as int);
                    assert(whole_part(m.pending) =~= w);
                    assert(frac_part(m.pending) =~= Seq::<char>::empty());
                    lemma_push_after_point(m.pending, c);
                    assert(all_digits(frac_part(m.pending).push(c)));
                }
            }
        },
        State::NumberDecimals => {
            if let Some(c) = input {
                if is_digit_char(c) {
                    lemma_push_after_point(m.pending, c);
                    assert(all_digits(frac_part(m.pending).push(c)));
                }
            }
        },
        State::Initial | State::Operator(_) | State::WhitespaceAfterOperator => {
            if let Some(c) = input {
                if is_digit_char(c) {
                    assert(m.pending.push(c) =~= seq![c]);
                    assert(all_digits(m.pending.push(c)));
                }
            }
        },
        _ => {},
    }
    if m.strict() && m.step(input).output is Ok {
        if let Some(c) = input {
            lemma_step_stays_strict(m, c);
        }
    }
}

/// A strict lexer that takes one more character still holds the beginning
/// of a number of the strict profile.
proof fn lemma_step_stays_strict(m: LexerView, c: char)
    requires
        m.wf(),
        m.strict(),
        m.step(Some(c)).output is Ok,
    ensures
        m.step(Some(c)).next.pending_is_strict(),
{
    let next = m.step(Some(c)).next;
    match m.state {
        State::NumberIntegers => {
            if is_digit_char(c) {
                assert(next.pending[0] == m.pending[0]);
            } else if c == '.' {
                assert(next.pending =~= seq!['0', '.']);
            }
        },
        State::NumberPoint => {
            if is_digit_char(c) {
                assert(next.pending =~= seq!['0', '.', c]);
                lemma_first_point_unique(next.pending, 1);
                assert(whole_part(next.pending) =~= seq!['0']);
            }
        },
        State::NumberDecimals => {
            if is_digit_char(c) {
                lemma_push_after_point(m.pending, c);
            }
        },
        State::Initial | State::Operator(_) | State::WhitespaceAfterOperator => {
            if is_digit_char(c) {
                assert(next.pending =~= seq![c]);
            }
        },
        _ => {},
    }
}

/// A lexer for one expression. It is fed the characters of the expression
/// one by one, and then the end of the input.
pub struct Lexer {
    profile: Profile,
    buffer: Vec<char>,
    state: State,
}

impl View for Lexer {
    type V = LexerView;

    closed spec fn view(&self) -> LexerView {
        LexerView { profile: self.profile, state: self.state, pending: self.buffer@ }
    }
}

/// What a call of `feed` gave, over the views of the tokens.
pub open spec fn output_view(r: Result<Option<Token>, LexingError>) -> Result<
    Option<TokenView>,
    LexingError,
> {
    match r {
        Ok(Some(token)) => Ok(Some(token@)),
        Ok(None) => Ok(None),
        Err(e) => Err(e),
    }
}

impl Lexer {
    #[verifier::type_invariant]
    closed spec fn inv(self) -> bool {
        self@.wf()
    }

    /// A lexer of the canonical profile that has read nothing.
    pub fn new() -> (lexer: Lexer)
        ensures
            lexer@ == LexerView::initial(Profile::Canonical),
    {
        Lexer { profile: Profile::Canonical, buffer: Vec::new(), state: State::Initial }
    }

    /// A lexer of the given profile that has read nothing.
    pub fn with_profile(profile: Profile) -> (lexer: Lexer)
        ensures
            lexer@ == LexerView::initial(profile),
    {
        Lexer { profile, buffer: Vec::new(), state: State::Initial }
    }

    /// Whether the end of the input has been read and the expression was
    /// complete.
    pub fn is_ended(&self) -> (b: bool)
        ensures
            b == (self@.state == State::End),
    {
        self.state == State::End
    }

    /// Turns the pending characters into a number and empties the buffer.
    fn drain_buffer_to_decimal(buffer: &mut Vec<char>) -> (n: Numeral)
        requires
            is_literal(old(buffer)@),
        ensures
            n@ == literal_of(old(buffer)@),
            final(buffer)@ == Seq::<char>::empty(),
    {
        let n = Numeral::from_chars(buffer).unwrap();
        buffer.clear();
        n
    }

    /// Feeds one character, or `None` for the end of the input. Gives the
    /// token that this completes, if any, or the error that it makes.
    ///
    /// A token is handed out when the character after it is read. Once the
    /// lexer has reported an error or read the end of the input, it takes
    /// further calls without change and gives `Ok(None)`.
    pub fn feed(&mut self, c: Option<char>) -> (r: Result<Option<Token>, LexingError>)
        ensures
            old(self)@.wf(),
            final(self)@.wf(),
            final(self)@ == old(self)@.step(c).next,
            output_view(r) == old(self)@.step(c).output,
            old(self)@.is_terminal() ==> r == Ok::<Option<Token>, LexingError>(None),
            old(self)@.is_terminal() ==> final(self)@ == old(self)@,
            r is Err ==> final(self)@.state == State::Error,
            c is None ==> final(self)@.is_terminal(),
            c is None && r is Ok && !old(self)@.is_terminal() ==> final(self)@.state
                == State::End,
    {
        proof {
            use_type_invariant(&*self);
            lemma_step_wf(self@, c);
        }
        // The parts are taken out, stepped and put back together, so that
        // the lexer is never seen with a buffer that does not fit its state.
        let mut taken = Lexer::with_profile(self.profile);
        core::mem::swap(self, &mut taken);
        let Lexer { profile, mut buffer, mut state } = taken;
        let r = Self::advance(profile, &mut state, &mut buffer, c);
        *self = Lexer { profile, buffer, state };
        r
    }

    /// The error for the character `c`, which is no digit, where a number
    /// begins.
    fn no_number(profile: Profile, c: char) -> (e: LexingError)
        ensures
            e == no_number(profile, c),
    {
        if c == '.' && profile == Profile::Strict {
            LexingError::IncorrectNumber(NumberLexingError::MissingIntegerBeforePoint)
        } else {
            LexingError::IncorrectExpression(ExpressionLexingError::UnexpectedCharacter(c))
        }
    }

    /// Whether the buffer holds a single zero and nothing else.
    fn is_zero(buffer: &Vec<char>) -> (b: bool)
        ensures
            b == (buffer@ == seq!['0']),
    {
        let b = buffer.len() == 1 && buffer[0] == '0';
        proof {
            if b {
                assert(buffer@ =~= seq!['0']);
            }
        }
        b
    }

    /// One step of the state machine on the parts of a lexer.
    fn advance(
        profile: Profile,
        state: &mut State,
        buffer: &mut Vec<char>,
        input: Option<char>,
    ) -> (r: Result<Option<Token>, LexingError>)
        requires
            (LexerView { profile, state: *old(state), pending: old(buffer)@ }).wf(),
        ensures
            ({
                let step = (LexerView {
                    profile,
                    state: *old(state),
                    pending: old(buffer)@,
                }).step(input);
                &&& *final(state) == step.next.state
                &&& final(buffer)@ == step.next.pending
                &&& output_view(r) == step.output
            }),
    {
        proof {
            if *state == State::NumberIntegers {
                lemma_digits_are_literal(buffer@);
            }
        }
        let strict = profile == Profile::Strict;
        match *state {
            State::End | State::Error => Ok(None),
            State::Initial => match input {
                None => {
                    *state = State::Error;
                    Err(LexingError::IncorrectExpression(ExpressionLexingError::UnexpectedEOI))
                },
                Some(c) => if is_digit(c) {
                    buffer.push(c);
                    *state = State::NumberIntegers;
                    Ok(None)
                } else {
                    *state = State::Error;
                    Err(Self::no_number(profile, c))
                },
            },
            State::NumberIntegers => match input {
                None => {
                    *state = State::End;
                    Ok(Some(Token::Number(Self::drain_buffer_to_decimal(buffer))))
                },
                Some(c) => if is_digit(c) {
                    if strict && Self::is_zero(buffer) {
                        *state = State::Error;
                        Err(LexingError::IncorrectNumber(NumberLexingError::ExpectedPointAfterZero))
                    } else {
                        buffer.push(c);
                        Ok(None)
                    }
                } else if c == '.' {
                    if strict && !Self::is_zero(buffer) {
                        *state = State::Error;
                        Err(
                            LexingError::IncorrectNumber(
                                NumberLexingError::NonZeroIntegerBeforePoint,
                            ),
                        )
                    } else {
                        buffer.push(c);
                        *state = State::NumberPoint;
                        Ok(None)
                    }
                } else {
                    Self::end_number(profile, state, buffer, c)
                },
            },
            State::NumberPoint => match input {
                None => {
                    *state = State::Error;
                    Err(LexingError::IncorrectNumber(NumberLexingError::ExpectedDigitAfterPoint))
                },
                Some(c) => if is_digit(c) {
                    buffer.push(c);
                    *state = State::NumberDecimals;
                    Ok(None)
                } else {
                    *state = State::Error;
                    Err(LexingError::IncorrectNumber(NumberLexingError::ExpectedDigitAfterPoint))
                },
            },
            State::NumberDecimals => match input {
                None => {
                    *state = State::End;
                    Ok(Some(Token::Number(Self::drain_buffer_to_decimal(buffer))))
                },
                Some(c) => if is_digit(c) {
                    buffer.push(c);
                    Ok(None)
                } else if c == '.' && strict {
                    *state = State::Error;
                    Err(LexingError::IncorrectNumber(NumberLexingError::NonZeroIntegerBeforePoint))
                } else {
                    Self::end_number(profile, state, buffer, c)
                },
            },
            State::WhitespaceBeforeOperator => match input {
                None => {
                    *state = State::End;
                    Ok(Some(Token::Whitespace))
                },
                Some(c) => if c == ' ' {
                    Ok(Some(Token::Whitespace))
                } else if let Some(kind) = get_operator_kind(c) {
                    *state = State::Operator(kind);
                    Ok(Some(Token::Whitespace))
                } else {
                    *state = State::Error;
                    Err(
                        LexingError::IncorrectExpression(
                            ExpressionLexingError::UnexpectedCharacter(c),
                        ),
                    )
                },
            },
            State::Operator(_) | State::WhitespaceAfterOperator => {
                let held = match *state {
                    State::Operator(kind) => Token::Operator(kind),
                    _ => Token::Whitespace,
                };
                match input {
                    None => {
                        *state = State::Error;
                        Err(LexingError::IncorrectExpression(ExpressionLexingError::UnexpectedEOI))
                    },
                    Some(c) => if c == ' ' {
                        *state = State::WhitespaceAfterOperator;
                        Ok(Some(held))
                    } else if is_digit(c) {
                        buffer.push(c);
                        *state = State::NumberIntegers;
                        Ok(Some(held))
                    } else {
                        *state = State::Error;
                        Err(Self::no_number(profile, c))
                    },
                }
            },
        }
    }

    /// The pending number ends at the character `c`, which it cannot take.
    fn end_number(profile: Profile, state: &mut State, buffer: &mut Vec<char>, c: char) -> (r:
        Result<Option<Token>, LexingError>)
        requires
            is_literal(old(buffer)@),
        ensures
            ({
                let step = (LexerView {
                    profile,
                    state: *old(state),
                    pending: old(buffer)@,
                }).end_number(c);
                &&& *final(state) == step.next.state
                &&& final(buffer)@ == step.next.pending
                &&& output_view(r) == step.output
            }),
    {
        if c == ' ' {
            *state = State::WhitespaceBeforeOperator;
            Ok(Some(Token::Number(Self::drain_buffer_to_decimal(buffer))))
        } else if let Some(kind) = get_operator_kind(c) {
            *state = State::Operator(kind);
            Ok(Some(Token::Number(Self::drain_buffer_to_decimal(buffer))))
        } else {
            *state = State::Error;
            Err(
                LexingError::IncorrectExpression(ExpressionLexingError::UnexpectedCharacter(c)),
            )
        }
    }
}

} // verus!
