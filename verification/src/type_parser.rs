//! The parser of a specification: its header and, through the rule-block
//! parser, its rules.
//!
//! A specification reads `Name<Internal, External> { rules }`, with an
//! optional `*` in front. The two types are qualified names: identifiers
//! joined by `::`. [`type_step`] is the state
//! machine that reads a qualified name, [`step`] the one that reads the
//! specification, and [`parsed`] says what a sequence of tokens means.

use crate::error::{end_of_header_message, unexpected_token_message, Error};
use crate::model::{
    begins_name, fits_phase, name_phase, opens_separator, qualified_name, Definition,
    DefinitionView,
};
use crate::rules_parser;
use crate::token::{lemma_group_view, views, Delimiter, Spacing, Token, TokenView};
use vstd::pervasive::cloned;
use vstd::prelude::*;

verus! {

/// A copy of a vector with a copy of one more element at its end.
pub fn vec_with<T: Clone>(orig: &Vec<T>, new: &T) -> (extended: Vec<T>)
    ensures
        extended.len() == orig.len() + 1,
        forall|i: int| 0 <= i < orig.len() ==> cloned(orig[i], #[trigger] extended[i]),
        cloned(*new, extended[orig.len() as int]),
{
    let mut new_vec = orig.clone();
    new_vec.push(new.clone());
    new_vec
}

/// A copy of a sequence of tokens with a copy of one more token at its end.
fn tokens_with(start: &Vec<Token>, token: &Token) -> (extended: Vec<Token>)
    ensures
        views(extended@) == views(start@).push(token@),
{
    let extended = vec_with(start, token);
    assert(views(extended@) =~= views(start@).push(token@));
    extended
}

/// Where the parser stands in a qualified name, with the tokens read so far.
#[derive(Debug)]
pub enum TypeNameState {
    /// In front of the name.
    Init,
    /// Behind an identifier: the tokens so far are a name.
    Ready(Vec<Token>),
    /// Behind the first colon of a separator.
    C1(Vec<Token>),
    /// Behind the second colon of a separator.
    C2(Vec<Token>),
}

/// The mathematical value of a [`TypeNameState`].
pub enum TypeNameStateView {
    Init,
    Ready(Seq<TokenView>),
    C1(Seq<TokenView>),
    C2(Seq<TokenView>),
}

impl View for TypeNameState {
    type V = TypeNameStateView;

    open spec fn view(&self) -> TypeNameStateView {
        match self {
            TypeNameState::Init => TypeNameStateView::Init,
            TypeNameState::Ready(start) => TypeNameStateView::Ready(views(start@)),
            TypeNameState::C1(start) => TypeNameStateView::C1(views(start@)),
            TypeNameState::C2(start) => TypeNameStateView::C2(views(start@)),
        }
    }
}

/// The state that follows `state` on `token` in a qualified name, or the
/// message of the error that the token causes there.
pub open spec fn type_step(state: TypeNameStateView, token: TokenView) -> Result<
    TypeNameStateView,
    Seq<char>,
> {
    match state {
        TypeNameStateView::Init => if token is Ident {
            Ok(TypeNameStateView::Ready(seq![token]))
        } else {
            Err(unexpected_token_message(token))
        },
        TypeNameStateView::Ready(start) => if opens_separator(token) {
            Ok(TypeNameStateView::C1(start.push(token)))
        } else {
            Err(unexpected_token_message(token))
        },
        TypeNameStateView::C1(start) => if token.is_punct(':') {
            Ok(TypeNameStateView::C2(start.push(token)))
        } else {
            Err(unexpected_token_message(token))
        },
        TypeNameStateView::C2(start) => if token is Ident {
            Ok(TypeNameStateView::Ready(start.push(token)))
        } else {
            Err(unexpected_token_message(token))
        },
    }
}

/// The qualified name that has been read when `token` ends it, or the message
/// of the error that the token causes where no name is complete.
pub open spec fn extracted(state: TypeNameStateView, token: TokenView) -> Result<
    Seq<TokenView>,
    Seq<char>,
> {
    match state {
        TypeNameStateView::Ready(name) => Ok(name),
        _ => Err(unexpected_token_message(token)),
    }
}

impl TypeNameState {
    /// Takes one token of a qualified name: the state that follows, or the
    /// error that the token causes.
    pub fn next_step(&self, tt: &Token) -> (next: Result<TypeNameState, Error>)
        ensures
            match next {
                Ok(next) => type_step(self@, tt@) == Ok::<TypeNameStateView, Seq<char>>(next@),
                Err(error) => type_step(self@, tt@) == Err::<TypeNameStateView, Seq<char>>(
                    error@,
                ),
            },
    {
        match self {
            TypeNameState::Init => match tt {
                Token::Ident(_) => {
                    let start = tokens_with(&Vec::new(), tt);
                    assert(views(start@) =~= seq![tt@]);
                    Ok(TypeNameState::Ready(start))
                },
                _ => Err(Error::unexpected_token(tt)),
            },
            TypeNameState::Ready(start) => match tt {
                Token::Punct(':', Spacing::Joint) => Ok(TypeNameState::C1(tokens_with(start, tt))),
                _ => Err(Error::unexpected_token(tt)),
            },
            TypeNameState::C1(start) => match tt {
                Token::Punct(':', _) => Ok(TypeNameState::C2(tokens_with(start, tt))),
                _ => Err(Error::unexpected_token(tt)),
            },
            TypeNameState::C2(start) => match tt {
                Token::Ident(_) => Ok(TypeNameState::Ready(tokens_with(start, tt))),
                _ => Err(Error::unexpected_token(tt)),
            },
        }
    }

    /// The qualified name that has been read when the token `to` ends it, or
    /// the error that the token causes where no name is complete.
    pub fn extract(&self, to: &Token) -> (name: Result<Vec<Token>, Error>)
        ensures
            match name {
                Ok(name) => extracted(self@, to@) == Ok::<Seq<TokenView>, Seq<char>>(
                    views(name@),
                ),
                Err(error) => extracted(self@, to@) == Err::<Seq<TokenView>, Seq<char>>(error@),
            },
    {
        match self {
            TypeNameState::Ready(vec) => {
                let name = vec.clone();
                assert(views(name@) =~= views(vec@));
                Ok(name)
            },
            _ => Err(Error::unexpected_token(to)),
        }
    }
}

/// Where the parser stands in a specification, with what it has read so
/// far. The flag says whether a `*` stood in front.
#[derive(Debug)]
pub enum State {
    /// In front of the name of the generated type.
    Init(bool),
    /// Behind the name of the generated type.
    Named(bool, Token),
    /// Inside the name of the internal type.
    ReadingInternal(bool, Token, TypeNameState),
    /// Inside the name of the external type.
    ReadingExternal(bool, Token, Vec<Token>, TypeNameState),
    /// Behind the `>` that closes the two types.
    Specified(bool, Token, Vec<Token>, Vec<Token>),
    /// Behind the rule block.
    Done(Definition),
}

/// The mathematical value of a [`State`].
pub enum StateView {
    Init(bool),
    Named(bool, TokenView),
    ReadingInternal(bool, TokenView, TypeNameStateView),
    ReadingExternal(bool, TokenView, Seq<TokenView>, TypeNameStateView),
    Specified(bool, TokenView, Seq<TokenView>, Seq<TokenView>),
    Done(DefinitionView),
}

impl View for State {
    type V = StateView;

    open spec fn view(&self) -> StateView {
        match self {
            State::Init(for_tests) => StateView::Init(*for_tests),
            State::Named(for_tests, name) => StateView::Named(*for_tests, name@),
            State::ReadingInternal(for_tests, name, state) => StateView::ReadingInternal(
                *for_tests,
                name@,
                state@,
            ),
            State::ReadingExternal(for_tests, name, internal, state) => StateView::ReadingExternal(
                *for_tests,
                name@,
                views(internal@),
                state@,
            ),
            State::Specified(for_tests, name, internal, external) => StateView::Specified(
                *for_tests,
                name@,
                views(internal@),
                views(external@),
            ),
            State::Done(definition) => StateView::Done(definition@),
        }
    }
}

/// The state that follows `state` on `token`, or the message of the error
/// that the token causes there.
pub open spec fn step(state: StateView, token: TokenView) -> Result<StateView, Seq<char>> {
    match state {
        StateView::Init(for_tests) => if token is Ident {
            Ok(StateView::Named(for_tests, token))
        } else if !for_tests && token.is_punct('*') {
            Ok(StateView::Init(true))
        } else {
            Err(unexpected_token_message(token))
        },
        StateView::Named(for_tests, name) => if token.is_punct('<') {
            Ok(StateView::ReadingInternal(for_tests, name, TypeNameStateView::Init))
        } else {
            Err(unexpected_token_message(token))
        },
        StateView::ReadingInternal(for_tests, name, state) => if token.is_punct(',') {
            match extracted(state, token) {
                Ok(internal) => Ok(
                    StateView::ReadingExternal(for_tests, name, internal, TypeNameStateView::Init),
                ),
                Err(message) => Err(message),
            }
        } else {
            match type_step(state, token) {
                Ok(next) => Ok(StateView::ReadingInternal(for_tests, name, next)),
                Err(message) => Err(message),
            }
        },
        StateView::ReadingExternal(for_tests, name, internal, state) => if token.is_punct('>') {
            match extracted(state, token) {
                Ok(external) => Ok(StateView::Specified(for_tests, name, internal, external)),
                Err(message) => Err(message),
            }
        } else {
            match type_step(state, token) {
                Ok(next) => Ok(StateView::ReadingExternal(for_tests, name, internal, next)),
                Err(message) => Err(message),
            }
        },
        StateView::Specified(for_tests, name, internal, external) => match token {
            TokenView::Group(Delimiter::Brace, inner, _) => match rules_parser::parsed(inner) {
                Ok(rules) => Ok(
                    StateView::Done(
                        DefinitionView {
                            for_tests,
                            name,
                            internal_type: internal,
                            external_type: external,
                            rules,
                        },
                    ),
                ),
                Err(message) => Err(message),
            },
            _ => Err(unexpected_token_message(token)),
        },
        StateView::Done(_) => Err(unexpected_token_message(token)),
    }
}

/// The state that the first `count` tokens lead to from the start of a
/// specification, or the message of the first error among them.
pub open spec fn run(tokens: Seq<TokenView>, count: nat) -> Result<StateView, Seq<char>>
    decreases count,
{
    if count == 0 || count > tokens.len() {
        Ok(StateView::Init(false))
    } else {
        match run(tokens, (count - 1) as nat) {
            Ok(state) => step(state, tokens[count - 1]),
            Err(message) => Err(message),
        }
    }
}

/// What a specification says, or the message of the error in it: that of the
/// first token that cannot be taken, or that of a specification that ends
/// before its rule block does.
pub open spec fn parsed(tokens: Seq<TokenView>) -> Result<DefinitionView, Seq<char>> {
    match run(tokens, tokens.len()) {
        Ok(StateView::Done(definition)) => Ok(definition),
        Ok(_) => Err(end_of_header_message()),
        Err(message) => Err(message),
    }
}

impl TypeNameStateView {
    /// The tokens read so far.
    pub open spec fn tokens(self) -> Seq<TokenView> {
        match self {
            TypeNameStateView::Init => Seq::empty(),
            TypeNameStateView::Ready(start) => start,
            TypeNameStateView::C1(start) => start,
            TypeNameStateView::C2(start) => start,
        }
    }

    /// Whether the tokens read so far begin a qualified name and end where
    /// the state says that they do.
    pub open spec fn well_formed(self) -> bool {
        let start = self.tokens();
        match self {
            TypeNameStateView::Init => true,
            TypeNameStateView::Ready(_) => qualified_name(start),
            TypeNameStateView::C1(_) => start.len() > 0 && begins_name(start) && name_phase(start.len() - 1) == 1,
            TypeNameStateView::C2(_) => start.len() > 0 && begins_name(start) && name_phase(start.len() - 1) == 2,
        }
    }
}

impl StateView {
    /// Whether what has been read so far can be part of a well-formed
    /// specification.
    pub open spec fn well_formed(self) -> bool {
        match self {
            StateView::Init(_) => true,
            StateView::Named(_, name) => name is Ident,
            StateView::ReadingInternal(_, name, state) => name is Ident && state.well_formed(),
            StateView::ReadingExternal(_, name, internal, state) => name is Ident
                && qualified_name(internal) && state.well_formed(),
            StateView::Specified(_, name, internal, external) => name is Ident && qualified_name(
                internal,
            ) && qualified_name(external),
            StateView::Done(definition) => definition.well_formed(),
        }
    }
}

/// A step in a qualified name leads from a well-formed state to a
/// well-formed state, and adds the token to the tokens read so far.
pub proof fn lemma_type_step_well_formed(state: TypeNameStateView, token: TokenView)
    requires
        state.well_formed(),
    ensures
        type_step(state, token) matches Ok(next) ==> next.well_formed() && next.tokens()
            == state.tokens().push(token),
{
    if let Ok(next) = type_step(state, token) {
        let start = state.tokens();
        let longer = next.tokens();
        assert(longer =~= start.push(token));
        assert forall|i: int| 0 <= i < longer.len() implies fits_phase(
            #[trigger] longer[i],
            name_phase(i),
        ) by {
            if i < start.len() {
                assert(longer[i] == start[i]);
                assert(fits_phase(start[i], name_phase(i)));
            }
        }
    }
}

/// A step leads from a well-formed state to a well-formed state.
pub proof fn lemma_step_well_formed(state: StateView, token: TokenView)
    requires
        state.well_formed(),
    ensures
        step(state, token) matches Ok(next) ==> next.well_formed(),
{
    match state {
        StateView::ReadingInternal(_, _, inner) => lemma_type_step_well_formed(inner, token),
        StateView::ReadingExternal(_, _, _, inner) => lemma_type_step_well_formed(inner, token),
        StateView::Specified(_, _, _, _) => match token {
            TokenView::Group(Delimiter::Brace, inner, _) => {
                rules_parser::lemma_parsed_well_formed(inner)
            },
            _ => {},
        },
        _ => {},
    }
}

/// Every state that a run reaches is well formed.
pub proof fn lemma_run_well_formed(tokens: Seq<TokenView>, count: nat)
    ensures
        run(tokens, count) matches Ok(state) ==> state.well_formed(),
    decreases count,
{
    if count == 0 || count > tokens.len() {
    } else {
        lemma_run_well_formed(tokens, (count - 1) as nat);
        match run(tokens, (count - 1) as nat) {
            Ok(state) => lemma_step_well_formed(state, tokens[count - 1]),
            Err(_) => {},
        }
    }
}

/// Every specification that parses is well formed.
pub proof fn lemma_parsed_well_formed(tokens: Seq<TokenView>)
    ensures
        parsed(tokens) matches Ok(definition) ==> definition.well_formed(),
{
    lemma_run_well_formed(tokens, tokens.len());
}

/// The state behind the given tokens of a qualified name.
pub open spec fn name_state(tokens: Seq<TokenView>) -> TypeNameStateView {
    if tokens.len() == 0 {
        TypeNameStateView::Init
    } else if name_phase(tokens.len() - 1) == 0 {
        TypeNameStateView::Ready(tokens)
    } else if name_phase(tokens.len() - 1) == 1 {
        TypeNameStateView::C1(tokens)
    } else {
        TypeNameStateView::C2(tokens)
    }
}

/// Each token of a qualified name can be taken behind the tokens in front
/// of it.
pub proof fn lemma_name_step(tokens: Seq<TokenView>, count: int)
    requires
        begins_name(tokens),
        0 <= count < tokens.len(),
    ensures
        type_step(name_state(tokens.take(count)), tokens[count]) == Ok::<
            TypeNameStateView,
            Seq<char>,
        >(name_state(tokens.take(count + 1))),
{
    let front = tokens.take(count);
    let longer = tokens.take(count + 1);
    assert(longer =~= front.push(tokens[count]));
    assert(fits_phase(tokens[count], name_phase(count)));
    if count > 0 {
        assert(fits_phase(tokens[count - 1], name_phase(count - 1)));
    } else {
        assert(longer =~= seq![tokens[0]]);
    }
}

/// The state that reads the name of a type: that of the internal type where
/// none has been read, that of the external type behind an internal type.
pub open spec fn reading(
    for_tests: bool,
    name: TokenView,
    internal: Option<Seq<TokenView>>,
    state: TypeNameStateView,
) -> StateView {
    match internal {
        None => StateView::ReadingInternal(for_tests, name, state),
        Some(internal) => StateView::ReadingExternal(for_tests, name, internal, state),
    }
}

/// Where a qualified name stands in a sequence and the tokens in front of it
/// lead to the state that begins to read it, its tokens are read one by one.
pub proof fn lemma_run_name(
    all: Seq<TokenView>,
    base: nat,
    for_tests: bool,
    name: TokenView,
    internal: Option<Seq<TokenView>>,
    tokens: Seq<TokenView>,
    count: nat,
)
    requires
        begins_name(tokens),
        count <= tokens.len(),
        base + tokens.len() <= all.len(),
        forall|j: int| 0 <= j < tokens.len() ==> all[base + j] == #[trigger] tokens[j],
        run(all, base) == Ok::<StateView, Seq<char>>(
            reading(for_tests, name, internal, TypeNameStateView::Init),
        ),
    ensures
        run(all, base + count) == Ok::<StateView, Seq<char>>(
            reading(for_tests, name, internal, name_state(tokens.take(count as int))),
        ),
    decreases count,
{
    if count > 0 {
        lemma_run_name(all, base, for_tests, name, internal, tokens, (count - 1) as nat);
        lemma_name_step(tokens, count - 1);
        let token = tokens[count - 1];
        assert(all[base + count - 1] == token);
        assert(fits_phase(token, name_phase(count - 1)));
        assert(!token.is_punct(',') && !token.is_punct('>'));
    } else {
        assert(tokens.take(0) =~= Seq::<TokenView>::empty());
    }
}

/// A specification written out: the star of one marked for tests, the name,
/// the two types between `<` and `>` with a comma between them, and the rules
/// in braces. The group of the rules carries the given text.
pub open spec fn spelled(definition: DefinitionView, text: Seq<char>) -> Seq<TokenView> {
    let star = if definition.for_tests {
        seq![TokenView::Punct('*', Spacing::Alone)]
    } else {
        Seq::empty()
    };
    star + seq![definition.name, TokenView::Punct('<', Spacing::Alone)] + definition.internal_type
        + seq![TokenView::Punct(',', Spacing::Alone)] + definition.external_type + seq![
        TokenView::Punct('>', Spacing::Alone),
        TokenView::Group(Delimiter::Brace, rules_parser::spelled_rules(definition.rules), text),
    ]
}

/// Every well-formed specification can be written: read back, what is
/// written gives the same specification.
pub proof fn lemma_spelled_parses(definition: DefinitionView, text: Seq<char>)
    requires
        definition.well_formed(),
    ensures
        parsed(spelled(definition, text)) == Ok::<DefinitionView, Seq<char>>(definition),
{
    let all = spelled(definition, text);
    let name = definition.name;
    let for_tests = definition.for_tests;
    let internal = definition.internal_type;
    let external = definition.external_type;
    let star: Seq<TokenView> = if for_tests {
        seq![TokenView::Punct('*', Spacing::Alone)]
    } else {
        Seq::empty()
    };
    let start = star.len() as int;
    let inner = start + 2;
    let outer = inner + internal.len() + 1;
    let close = outer + external.len();
    assert(all.len() == close + 2);
    assert(all[start] == name);
    assert(all[start + 1] == TokenView::Punct('<', Spacing::Alone));
    assert forall|j: int| 0 <= j < internal.len() implies all[inner + j] == #[trigger] internal[j] by {}
    assert(all[outer - 1] == TokenView::Punct(',', Spacing::Alone));
    assert forall|j: int| 0 <= j < external.len() implies all[outer + j] == #[trigger] external[j] by {}
    assert(all[close] == TokenView::Punct('>', Spacing::Alone));
    assert(all[close + 1] == TokenView::Group(
        Delimiter::Brace,
        rules_parser::spelled_rules(definition.rules),
        text,
    ));

    assert(run(all, (start) as nat) == Ok::<StateView, Seq<char>>(StateView::Init(for_tests))) by {
        if for_tests {
            assert(all[0] == TokenView::Punct('*', Spacing::Alone));
            assert(run(all, 0) == Ok::<StateView, Seq<char>>(StateView::Init(false)));
        }
    }
    assert(run(all, (start + 1) as nat) == Ok::<StateView, Seq<char>>(StateView::Named(for_tests, name)));
    assert(run(all, (inner) as nat) == Ok::<StateView, Seq<char>>(
        reading(for_tests, name, None, TypeNameStateView::Init),
    ));
    lemma_run_name(all, inner as nat, for_tests, name, None, internal, internal.len());
    assert(internal.take(internal.len() as int) =~= internal);
    assert(run(all, (outer - 1) as nat) == Ok::<StateView, Seq<char>>(
        StateView::ReadingInternal(for_tests, name, TypeNameStateView::Ready(internal)),
    ));
    assert(run(all, (outer) as nat) == Ok::<StateView, Seq<char>>(
        reading(for_tests, name, Some(internal), TypeNameStateView::Init),
    ));
    lemma_run_name(all, outer as nat, for_tests, name, Some(internal), external, external.len());
    assert(external.take(external.len() as int) =~= external);
    assert(run(all, (close) as nat) == Ok::<StateView, Seq<char>>(
        StateView::ReadingExternal(for_tests, name, internal, TypeNameStateView::Ready(external)),
    ));
    assert(run(all, (close + 1) as nat) == Ok::<StateView, Seq<char>>(
        StateView::Specified(for_tests, name, internal, external),
    ));
    rules_parser::lemma_spelled_rules_parse(definition.rules);
    assert(run(all, (close + 2) as nat) == Ok::<StateView, Seq<char>>(StateView::Done(definition)));
}

/// An error stays: once some tokens have led to one, more tokens lead to the
/// same one.
pub proof fn lemma_run_error_stays(tokens: Seq<TokenView>, failed: nat, count: nat)
    requires
        failed <= count <= tokens.len(),
        run(tokens, failed) is Err,
    ensures
        run(tokens, count) == run(tokens, failed),
    decreases count,
{
    if count > failed {
        lemma_run_error_stays(tokens, failed, (count - 1) as nat);
    }
}

/// Takes one token in a state: the state that follows, or the error that the
/// token causes.
pub fn next_step(state: State, token: Token) -> (next: Result<State, Error>)
    ensures
        match next {
            Ok(next) => step(state@, token@) == Ok::<StateView, Seq<char>>(next@),
            Err(error) => step(state@, token@) == Err::<StateView, Seq<char>>(error@),
        },
{
    match state {
        State::Init(for_tests) => match token {
            Token::Ident(_) => Ok(State::Named(for_tests, token)),
            Token::Punct('*', _) => if for_tests {
                Err(Error::unexpected_token(&token))
            } else {
                Ok(State::Init(true))
            },
            _ => Err(Error::unexpected_token(&token)),
        },
        State::Named(for_tests, name) => match token {
            Token::Punct('<', _) => Ok(State::ReadingInternal(for_tests, name, TypeNameState::Init)),
            _ => Err(Error::unexpected_token(&token)),
        },
        State::ReadingInternal(for_tests, name, state) => match token {
            Token::Punct(',', _) => match state.extract(&token) {
                Ok(internal) => Ok(
                    State::ReadingExternal(for_tests, name, internal, TypeNameState::Init),
                ),
                Err(error) => Err(error),
            },
            _ => match state.next_step(&token) {
                Ok(next) => Ok(State::ReadingInternal(for_tests, name, next)),
                Err(error) => Err(error),
            },
        },
        State::ReadingExternal(for_tests, name, internal, state) => match token {
            Token::Punct('>', _) => match state.extract(&token) {
                Ok(external) => Ok(State::Specified(for_tests, name, internal, external)),
                Err(error) => Err(error),
            },
            _ => match state.next_step(&token) {
                Ok(next) => Ok(State::ReadingExternal(for_tests, name, internal, next)),
                Err(error) => Err(error),
            },
        },
        State::Specified(for_tests, name, internal, external) => match token {
            Token::Group(Delimiter::Brace, inner, text) => {
                proof {
                    lemma_group_view(Delimiter::Brace, inner, text);
                }
                match rules_parser::parse(inner) {
                    Ok(rules) => Ok(
                        State::Done(
                            Definition {
                                for_tests,
                                name,
                                internal_type: internal,
                                external_type: external,
                                rules,
                            },
                        ),
                    ),
                    Err(error) => Err(error),
                }
            },
            _ => Err(Error::unexpected_token(&token)),
        },
        State::Done(_) => Err(Error::unexpected_token(&token)),
    }
}

/// Parses a specification: what it says, or the error in it.
pub fn parse(stream: Vec<Token>) -> (definition: Result<Definition, Error>)
    ensures
        match definition {
            Ok(definition) => parsed(views(stream@)) == Ok::<DefinitionView, Seq<char>>(
                definition@,
            ),
            Err(error) => parsed(views(stream@)) == Err::<DefinitionView, Seq<char>>(error@),
        },
        definition matches Ok(definition) ==> definition@.well_formed(),
{
    let ghost tokens = views(stream@);
    proof {
        lemma_parsed_well_formed(tokens);
    }
    let mut state = State::Init(false);
    let mut i: usize = 0;
    while i < stream.len()
        invariant
            tokens == views(stream@),
            i <= stream.len(),
            run(tokens, i as nat) == Ok::<StateView, Seq<char>>(state@),
        decreases stream.len() - i,
    {
        match next_step(state, stream[i].clone()) {
            Ok(next) => {
                state = next;
            },
            Err(error) => {
                proof {
                    lemma_run_error_stays(tokens, (i + 1) as nat, tokens.len());
                }
                return Err(error);
            },
        }
        i += 1;
    }
    match state {
        State::Done(definition) => Ok(definition),
        _ => Err(Error::end_of_header()),
    }
}

} // verus!
