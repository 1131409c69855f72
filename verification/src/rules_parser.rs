//! The parser of a rule block.
//!
//! A rule block is a list of rules separated by commas, with an optional
//! comma behind the last one. A rule is an internal value, an operator and an
//! external value. The operator is `==` for an equivalence, `=>` for a
//! projection to the external value and `<=` for one to the internal value;
//! its first character alone, or `>` alone, says the same. The placeholder `_`
//! stands on the side that an arrow points away from, for a value that has no
//! counterpart.
//!
//! The parser is a state machine: [`step`] says which state follows a state
//! and a token, [`run`] applies it to the tokens of a block in turn, and
//! [`parsed`] says what the block means.

use crate::error::{
    end_of_rules_message, misplaced_trap_message, unexpected_token_message, Error,
};
use crate::model::{all_well_formed, rule_views, Rule, RuleView, Rules};
use crate::token::{is_trap, trap, views, Spacing, Token, TokenView};
use vstd::prelude::*;

verus! {

/// The relation that an operator stands for.
#[derive(Debug, Clone, Copy, PartialEq, Eq, Structural)]
pub enum Op {
    /// The two values correspond in both directions.
    Eq,
    /// The internal value maps to the external one.
    Gt,
    /// The external value maps to the internal one.
    Lt,
}

/// Where the parser stands in a rule block, with the rules read so far.
#[derive(Debug)]
pub enum State {
    /// In front of a rule.
    StartOfRule(Rules),
    /// Behind the internal value of a rule.
    Internal(Rules, Token),
    /// Behind the first character of the operator of a rule.
    Operator(Rules, Token, Op),
    /// Behind the second character of the operator of a rule.
    OperatorEnd(Rules, Token, Op),
    /// Behind a rule.
    EndOfRule(Rules),
}

/// The mathematical value of a [`State`].
pub enum StateView {
    StartOfRule(Seq<RuleView>),
    Internal(Seq<RuleView>, TokenView),
    Operator(Seq<RuleView>, TokenView, Op),
    OperatorEnd(Seq<RuleView>, TokenView, Op),
    EndOfRule(Seq<RuleView>),
}

impl View for State {
    type V = StateView;

    open spec fn view(&self) -> StateView {
        match self {
            State::StartOfRule(data) => StateView::StartOfRule(rule_views(data@)),
            State::Internal(data, internal) => StateView::Internal(rule_views(data@), internal@),
            State::Operator(data, internal, op) => StateView::Operator(
                rule_views(data@),
                internal@,
                *op,
            ),
            State::OperatorEnd(data, internal, op) => StateView::OperatorEnd(
                rule_views(data@),
                internal@,
                *op,
            ),
            State::EndOfRule(data) => StateView::EndOfRule(rule_views(data@)),
        }
    }
}

/// The relation that a marker character stands for, if it is one.
pub open spec fn marker(ch: char) -> Option<Op> {
    if ch == '=' {
        Some(Op::Eq)
    } else if ch == '<' {
        Some(Op::Lt)
    } else if ch == '>' {
        Some(Op::Gt)
    } else {
        None
    }
}

/// The relation of the operator that a second character completes, where
/// the first character stood for `op`: `==` is an equivalence, `=>` points to
/// the external value and `<=` to the internal one. No other pair of
/// characters is an operator.
pub open spec fn completed(op: Op, ch: char) -> Option<Op> {
    if op == Op::Eq && ch == '=' {
        Some(Op::Eq)
    } else if op == Op::Eq && ch == '>' {
        Some(Op::Gt)
    } else if op == Op::Lt && ch == '=' {
        Some(Op::Lt)
    } else {
        None
    }
}

/// The rule that an operator makes of the values on its two sides, if the
/// placeholder stands on neither side or on the one where the operator
/// allows it.
pub open spec fn finished(op: Op, internal: TokenView, external: TokenView) -> Option<RuleView> {
    match op {
        Op::Eq => if internal.is_trap() || external.is_trap() {
            None
        } else {
            Some(RuleView::Equivalence(internal, external))
        },
        Op::Gt => if internal.is_trap() {
            None
        } else if external.is_trap() {
            Some(RuleView::OrphanInternal(internal))
        } else {
            Some(RuleView::ProjectionToExternal(internal, external))
        },
        Op::Lt => if external.is_trap() {
            None
        } else if internal.is_trap() {
            Some(RuleView::OrphanExternal(external))
        } else {
            Some(RuleView::ProjectionToInternal(internal, external))
        },
    }
}

/// The state that follows `state` on `token`, or the message of the error
/// that the token causes there.
pub open spec fn step(state: StateView, token: TokenView) -> Result<StateView, Seq<char>> {
    match state {
        StateView::StartOfRule(data) => if token is Ident {
            Ok(StateView::Internal(data, token))
        } else {
            Err(unexpected_token_message(token))
        },
        StateView::Internal(data, internal) => match token {
            TokenView::Punct(ch, _) => match marker(ch) {
                Some(op) => Ok(StateView::Operator(data, internal, op)),
                None => Err(unexpected_token_message(token)),
            },
            _ => Err(unexpected_token_message(token)),
        },
        StateView::Operator(data, internal, op) => match token {
            TokenView::Ident(_) => match finished(op, internal, token) {
                Some(rule) => Ok(StateView::EndOfRule(data.push(rule))),
                None => Err(misplaced_trap_message()),
            },
            TokenView::Punct(ch, _) => match completed(op, ch) {
                Some(whole) => Ok(StateView::OperatorEnd(data, internal, whole)),
                None => Err(unexpected_token_message(token)),
            },
            _ => Err(unexpected_token_message(token)),
        },
        StateView::OperatorEnd(data, internal, op) => match token {
            TokenView::Ident(_) => match finished(op, internal, token) {
                Some(rule) => Ok(StateView::EndOfRule(data.push(rule))),
                None => Err(misplaced_trap_message()),
            },
            _ => Err(unexpected_token_message(token)),
        },
        StateView::EndOfRule(data) => if token.is_punct(',') {
            Ok(StateView::StartOfRule(data))
        } else {
            Err(unexpected_token_message(token))
        },
    }
}

/// The state that the first `count` tokens lead to from the start of a rule
/// block, or the message of the first error among them.
pub open spec fn run(tokens: Seq<TokenView>, count: nat) -> Result<StateView, Seq<char>>
    decreases count,
{
    if count == 0 || count > tokens.len() {
        Ok(StateView::StartOfRule(Seq::empty()))
    } else {
        match run(tokens, (count - 1) as nat) {
            Ok(state) => step(state, tokens[count - 1]),
            Err(message) => Err(message),
        }
    }
}

/// The rules that a rule block holds, or the message of the error in it: that
/// of the first token that cannot be taken, or that of a block that ends
/// inside a rule.
pub open spec fn parsed(tokens: Seq<TokenView>) -> Result<Seq<RuleView>, Seq<char>> {
    match run(tokens, tokens.len()) {
        Ok(StateView::StartOfRule(data)) => Ok(data),
        Ok(StateView::EndOfRule(data)) => Ok(data),
        Ok(_) => Err(end_of_rules_message()),
        Err(message) => Err(message),
    }
}

impl StateView {
    /// The rules read so far.
    pub open spec fn data(self) -> Seq<RuleView> {
        match self {
            StateView::StartOfRule(data) => data,
            StateView::Internal(data, _) => data,
            StateView::Operator(data, _, _) => data,
            StateView::OperatorEnd(data, _, _) => data,
            StateView::EndOfRule(data) => data,
        }
    }

    /// Whether the rules read so far are well formed and the value that a rule
    /// has begun with is an identifier.
    pub open spec fn well_formed(self) -> bool {
        &&& all_well_formed(self.data())
        &&& match self {
            StateView::Internal(_, internal) => internal is Ident,
            StateView::Operator(_, internal, _) => internal is Ident,
            StateView::OperatorEnd(_, internal, _) => internal is Ident,
            _ => true,
        }
    }
}

/// A step leads from a well-formed state to a well-formed state.
pub proof fn lemma_step_well_formed(state: StateView, token: TokenView)
    requires
        state.well_formed(),
    ensures
        step(state, token) matches Ok(next) ==> next.well_formed(),
{
    let begun = match state {
        StateView::Operator(data, internal, op) => Some((data, internal, op)),
        StateView::OperatorEnd(data, internal, op) => Some((data, internal, op)),
        _ => None,
    };
    if let Some((data, internal, op)) = begun {
        if let Some(rule) = finished(op, internal, token) {
            if token is Ident {
                assert(rule.well_formed());
                assert(all_well_formed(data.push(rule))) by {
                    assert forall|i: int| 0 <= i < data.push(rule).len() implies (
                    #[trigger] data.push(rule)[i]).well_formed() by {
                        if i < data.len() {
                            assert(data.push(rule)[i] == data[i]);
                        }
                    }
                }
            }
        }
    }
}

/// Every state that a run reaches is well formed.
pub proof fn lemma_run_well_formed(tokens: Seq<TokenView>, count: nat)
    ensures
        run(tokens, count) matches Ok(state) ==> state.well_formed(),
    decreases count,
{
    if count == 0 || count > tokens.len() {
    } else {
        lemma_run_well_formed(tokens, (count - 1) as nat);
        match run(tokens, (count - 1) as nat) {
            Ok(state) => lemma_step_well_formed(state, tokens[count - 1]),
            Err(_) => {},
        }
    }
}

/// An error stays: once some tokens have led to one, more tokens lead to the
/// same one.
pub proof fn lemma_run_error_stays(tokens: Seq<TokenView>, failed: nat, count: nat)
    requires
        failed <= count <= tokens.len(),
        run(tokens, failed) is Err,
    ensures
        run(tokens, count) == run(tokens, failed),
    decreases count,
{
    if count > failed {
        lemma_run_error_stays(tokens, failed, (count - 1) as nat);
    }
}

/// What the first tokens of a sequence lead to does not depend on the tokens
/// behind them.
pub proof fn lemma_run_prefix(first: Seq<TokenView>, rest: Seq<TokenView>, count: nat)
    requires
        count <= first.len(),
    ensures
        run(first + rest, count) == run(first, count),
    decreases count,
{
    if count > 0 {
        lemma_run_prefix(first, rest, (count - 1) as nat);
        assert((first + rest)[count - 1] == first[count - 1]);
    }
}

/// The error that some tokens of a rule block lead to is the error of the
/// block.
pub proof fn lemma_error_is_final(tokens: Seq<TokenView>, failed: nat)
    requires
        failed <= tokens.len(),
        run(tokens, failed) is Err,
    ensures
        parsed(tokens) == Err::<Seq<RuleView>, Seq<char>>(run(tokens, failed)->Err_0),
{
    lemma_run_error_stays(tokens, failed, tokens.len());
}

/// Whether two characters make an operator of two characters.
pub open spec fn operator_pair(first: char, second: char) -> bool {
    ||| first == '=' && second == '='
    ||| first == '=' && second == '>'
    ||| first == '<' && second == '='
}

/// No pair of punctuation characters but `==`, `=>` and `<=` is an operator.
/// A rule block that holds an identifier and two other punctuation characters
/// in a row never parses, whatever stands in front and behind; where these
/// tokens begin a rule and the first character is a marker, the error is that
/// of the second character as an unexpected token.
pub proof fn lemma_other_pairs_fail(
    before: Seq<TokenView>,
    internal: TokenView,
    first: TokenView,
    second: TokenView,
    after: Seq<TokenView>,
)
    requires
        internal is Ident,
        first matches TokenView::Punct(c1, _) && second matches TokenView::Punct(c2, _)
            && !operator_pair(c1, c2),
    ensures
        parsed(before + seq![internal, first, second] + after) is Err,
        run(before, before.len()) matches Ok(StateView::StartOfRule(_)) && marker(first->Punct_0)
            is Some ==> parsed(before + seq![internal, first, second] + after) == Err::<
            Seq<RuleView>,
            Seq<char>,
        >(unexpected_token_message(second)),
{
    let all = before + seq![internal, first, second] + after;
    let start = before.len() as int;
    assert(all =~= before + (seq![internal, first, second] + after));
    lemma_run_prefix(before, seq![internal, first, second] + after, before.len());
    assert(all[start] == internal);
    assert(all[start + 1] == first);
    assert(all[start + 2] == second);
    let reached = run(all, (start + 1) as nat);
    let marked = run(all, (start + 2) as nat);
    let last = run(all, (start + 3) as nat);
    match run(before, before.len()) {
        Ok(StateView::StartOfRule(_)) => {
            assert(reached is Ok);
            if marker(first->Punct_0) is Some {
                assert(marked is Ok);
                assert(last == Err::<StateView, Seq<char>>(unexpected_token_message(second)));
                lemma_error_is_final(all, (start + 3) as nat);
            } else {
                assert(marked is Err);
                lemma_error_is_final(all, (start + 2) as nat);
            }
        },
        Ok(StateView::Operator(_, _, _)) | Ok(StateView::OperatorEnd(_, _, _)) => {
            if reached is Ok {
                if marked is Ok {
                    assert(last is Err);
                    lemma_error_is_final(all, (start + 3) as nat);
                } else {
                    lemma_error_is_final(all, (start + 2) as nat);
                }
            } else {
                lemma_error_is_final(all, (start + 1) as nat);
            }
        },
        Ok(_) => {
            assert(reached is Err);
            lemma_error_is_final(all, (start + 1) as nat);
        },
        Err(_) => {
            lemma_error_is_final(all, start as nat);
        },
    }
}

/// An operator has no third character. A rule block that holds an
/// identifier and three punctuation characters in a row never parses,
/// whatever stands in front and behind.
pub proof fn lemma_third_character_fails(
    before: Seq<TokenView>,
    internal: TokenView,
    first: TokenView,
    second: TokenView,
    third: TokenView,
    after: Seq<TokenView>,
)
    requires
        internal is Ident,
        first is Punct,
        second is Punct,
        third is Punct,
    ensures
        parsed(before + seq![internal, first, second, third] + after) is Err,
{
    let all = before + seq![internal, first, second, third] + after;
    let start = before.len() as int;
    assert(all =~= before + (seq![internal, first, second, third] + after));
    lemma_run_prefix(before, seq![internal, first, second, third] + after, before.len());
    assert(all[start] == internal);
    assert(all[start + 1] == first);
    assert(all[start + 2] == second);
    assert(all[start + 3] == third);
    let reached = run(all, (start + 1) as nat);
    let marked = run(all, (start + 2) as nat);
    let again = run(all, (start + 3) as nat);
    let last = run(all, (start + 4) as nat);
    if run(before, before.len()) is Err {
        lemma_error_is_final(all, start as nat);
    } else if reached is Err {
        lemma_error_is_final(all, (start + 1) as nat);
    } else if marked is Err {
        lemma_error_is_final(all, (start + 2) as nat);
    } else if again is Err {
        lemma_error_is_final(all, (start + 3) as nat);
    } else {
        assert(last is Err);
        lemma_error_is_final(all, (start + 4) as nat);
    }
}

/// A rule with both arrows in its operator is an error. A rule block that
/// holds an identifier, one arrow and the other arrow in a row never parses,
/// whatever stands in front and behind; where these tokens begin a rule, the
/// error is that of the second arrow as an unexpected token.
pub proof fn lemma_both_arrows_fail(
    before: Seq<TokenView>,
    internal: TokenView,
    first: TokenView,
    second: TokenView,
    after: Seq<TokenView>,
)
    requires
        internal is Ident,
        (first.is_punct('<') && second.is_punct('>')) || (first.is_punct('>') && second.is_punct(
            '<',
        )),
    ensures
        parsed(before + seq![internal, first, second] + after) is Err,
        run(before, before.len()) matches Ok(StateView::StartOfRule(_)) ==> parsed(
            before + seq![internal, first, second] + after,
        ) == Err::<Seq<RuleView>, Seq<char>>(unexpected_token_message(second)),
{
    lemma_other_pairs_fail(before, internal, first, second, after);
}

/// An equivalence with the placeholder on either side is an error. A rule
/// block that holds `internal == external` with the placeholder for one of
/// the two never parses, whatever stands in front and behind; where these
/// tokens begin a rule, the error is that of a misplaced placeholder.
pub proof fn lemma_equivalence_with_trap_fails(
    before: Seq<TokenView>,
    internal: TokenView,
    first: TokenView,
    second: TokenView,
    external: TokenView,
    after: Seq<TokenView>,
)
    requires
        internal is Ident,
        external is Ident,
        first.is_punct('='),
        second.is_punct('='),
        internal.is_trap() || external.is_trap(),
    ensures
        parsed(before + seq![internal, first, second, external] + after) is Err,
        run(before, before.len()) matches Ok(StateView::StartOfRule(_)) ==> parsed(
            before + seq![internal, first, second, external] + after,
        ) == Err::<Seq<RuleView>, Seq<char>>(misplaced_trap_message()),
{
    let all = before + seq![internal, first, second, external] + after;
    let start = before.len() as int;
    assert(all =~= before + (seq![internal, first, second, external] + after));
    lemma_run_prefix(before, seq![internal, first, second, external] + after, before.len());
    assert(all[start] == internal);
    assert(all[start + 1] == first);
    assert(all[start + 2] == second);
    assert(all[start + 3] == external);
    let reached = run(all, (start + 1) as nat);
    let marked = run(all, (start + 2) as nat);
    let again = run(all, (start + 3) as nat);
    let last = run(all, (start + 4) as nat);
    match run(before, before.len()) {
        Ok(StateView::StartOfRule(_)) => {
            assert(reached is Ok);
            assert(marked is Ok);
            assert(again is Ok);
            assert(last == Err::<StateView, Seq<char>>(misplaced_trap_message()));
            lemma_error_is_final(all, (start + 4) as nat);
        },
        Ok(StateView::Operator(_, _, _)) | Ok(StateView::OperatorEnd(_, _, _)) => {
            if reached is Ok {
                assert(marked is Err);
                lemma_error_is_final(all, (start + 2) as nat);
            } else {
                lemma_error_is_final(all, (start + 1) as nat);
            }
        },
        Ok(_) => {
            assert(reached is Err);
            lemma_error_is_final(all, (start + 1) as nat);
        },
        Err(_) => {
            lemma_error_is_final(all, start as nat);
        },
    }
}

/// A rule written out: its internal value or the placeholder, its operator
/// in two characters, and its external value or the placeholder.
pub open spec fn spelled_rule(rule: RuleView) -> Seq<TokenView> {
    let equals = TokenView::Punct('=', Spacing::Joint);
    let equals_last = TokenView::Punct('=', Spacing::Alone);
    let less = TokenView::Punct('<', Spacing::Joint);
    let greater = TokenView::Punct('>', Spacing::Alone);
    match rule {
        RuleView::Equivalence(internal, external) => seq![internal, equals, equals_last, external],
        RuleView::ProjectionToExternal(internal, external) => seq![
            internal,
            equals,
            greater,
            external,
        ],
        RuleView::ProjectionToInternal(internal, external) => seq![
            internal,
            less,
            equals_last,
            external,
        ],
        RuleView::OrphanInternal(internal) => seq![internal, equals, greater, trap()],
        RuleView::OrphanExternal(external) => seq![trap(), less, equals_last, external],
    }
}

/// A list of rules written out, with a comma behind each rule.
pub open spec fn spelled_rules(rules: Seq<RuleView>) -> Seq<TokenView>
    decreases rules.len(),
{
    if rules.len() == 0 {
        Seq::empty()
    } else {
        spelled_rules(rules.drop_last()) + spelled_rule(rules.last()) + seq![
            TokenView::Punct(',', Spacing::Alone),
        ]
    }
}

/// The four tokens of a well-formed rule written out lead from the start of
/// a rule to its end, with the rule added to the rules read.
pub proof fn lemma_spelled_rule_steps(data: Seq<RuleView>, rule: RuleView)
    requires
        rule.well_formed(),
    ensures
        ({
            let tokens = spelled_rule(rule);
            &&& tokens.len() == 4
            &&& step(StateView::StartOfRule(data), tokens[0]) matches Ok(first)
            &&& step(first, tokens[1]) matches Ok(second)
            &&& step(second, tokens[2]) matches Ok(third)
            &&& step(third, tokens[3]) == Ok::<StateView, Seq<char>>(
                StateView::EndOfRule(data.push(rule)),
            )
        }),
{
    assert(trap().is_trap());
    match rule {
        RuleView::Equivalence(internal, external) => {},
        RuleView::ProjectionToExternal(internal, external) => {},
        RuleView::ProjectionToInternal(internal, external) => {},
        RuleView::OrphanInternal(internal) => {},
        RuleView::OrphanExternal(external) => {},
    }
}

/// Writing out well-formed rules and reading them leads to the start of a
/// rule with these rules read, and to the end of a rule one token earlier.
pub proof fn lemma_run_spelled_rules(rules: Seq<RuleView>)
    requires
        all_well_formed(rules),
    ensures
        run(spelled_rules(rules), spelled_rules(rules).len()) == Ok::<StateView, Seq<char>>(
            StateView::StartOfRule(rules),
        ),
        rules.len() > 0 ==> run(
            spelled_rules(rules),
            (spelled_rules(rules).len() - 1) as nat,
        ) == Ok::<StateView, Seq<char>>(StateView::EndOfRule(rules)),
    decreases rules.len(),
{
    if rules.len() > 0 {
        let front = rules.drop_last();
        let rule = rules.last();
        assert(all_well_formed(front)) by {
            assert forall|i: int| 0 <= i < front.len() implies (#[trigger] front[i]).well_formed() by {
                assert(rules[i].well_formed());
            }
        }
        assert(rule.well_formed());
        lemma_run_spelled_rules(front);
        lemma_spelled_rule_steps(front, rule);
        let before = spelled_rules(front);
        let comma = TokenView::Punct(',', Spacing::Alone);
        let rest = spelled_rule(rule) + seq![comma];
        let all = spelled_rules(rules);
        let start = before.len() as int;
        assert(all =~= before + rest);
        lemma_run_prefix(before, rest, before.len());
        assert(all[start] == spelled_rule(rule)[0]);
        assert(all[start + 1] == spelled_rule(rule)[1]);
        assert(all[start + 2] == spelled_rule(rule)[2]);
        assert(all[start + 3] == spelled_rule(rule)[3]);
        assert(all[start + 4] == comma);
        assert(all.len() == start + 5);
        assert(front.push(rule) =~= rules);
        let first = step(StateView::StartOfRule(front), all[start])->Ok_0;
        assert(run(all, (start + 1) as nat) == Ok::<StateView, Seq<char>>(first));
        let second = step(first, all[start + 1])->Ok_0;
        assert(run(all, (start + 2) as nat) == Ok::<StateView, Seq<char>>(second));
        let third = step(second, all[start + 2])->Ok_0;
        assert(run(all, (start + 3) as nat) == Ok::<StateView, Seq<char>>(third));
        assert(run(all, (start + 4) as nat) == Ok::<StateView, Seq<char>>(
            StateView::EndOfRule(rules),
        ));
        assert(run(all, (start + 5) as nat) == Ok::<StateView, Seq<char>>(
            StateView::StartOfRule(rules),
        ));
    } else {
        assert(rules =~= Seq::<RuleView>::empty());
    }
}

/// The prefix of a sequence reads as the sequence does, as far as it goes.
pub proof fn lemma_run_take(tokens: Seq<TokenView>, count: nat)
    requires
        count <= tokens.len(),
    ensures
        run(tokens.take(count as int), count) == run(tokens, count),
{
    assert(tokens =~= tokens.take(count as int) + tokens.skip(count as int));
    lemma_run_prefix(tokens.take(count as int), tokens.skip(count as int), count);
}

/// Every list of well-formed rules can be written: read back, what is
/// written gives the same rules, with or without the comma behind the last
/// rule.
pub proof fn lemma_spelled_rules_parse(rules: Seq<RuleView>)
    requires
        all_well_formed(rules),
    ensures
        parsed(spelled_rules(rules)) == Ok::<Seq<RuleView>, Seq<char>>(rules),
        rules.len() > 0 ==> parsed(spelled_rules(rules).drop_last()) == Ok::<
            Seq<RuleView>,
            Seq<char>,
        >(rules),
{
    lemma_run_spelled_rules(rules);
    if rules.len() > 0 {
        let all = spelled_rules(rules);
        lemma_run_take(all, (all.len() - 1) as nat);
        assert(all.drop_last() =~= all.take(all.len() - 1));
    }
}

/// Every rule of a rule block that parses names its values by identifiers
/// other than the placeholder.
pub proof fn lemma_parsed_well_formed(tokens: Seq<TokenView>)
    ensures
        parsed(tokens) matches Ok(rules) ==> all_well_formed(rules),
{
    lemma_run_well_formed(tokens, tokens.len());
}

/// The relation that a marker character stands for, if it is one.
fn marker_of(ch: char) -> (op: Option<Op>)
    ensures
        op == marker(ch),
{
    if ch == '=' {
        Some(Op::Eq)
    } else if ch == '<' {
        Some(Op::Lt)
    } else if ch == '>' {
        Some(Op::Gt)
    } else {
        None
    }
}

/// The rule that an operator makes of the values on its two sides.
fn finish(op: Op, internal: Token, external: Token) -> (rule: Option<Rule>)
    ensures
        match rule {
            Some(rule) => finished(op, internal@, external@) == Some(rule@),
            None => finished(op, internal@, external@) is None,
        },
{
    match op {
        Op::Eq => if is_trap(&internal) || is_trap(&external) {
            None
        } else {
            Some(Rule::Equivalence(internal, external))
        },
        Op::Gt => if is_trap(&internal) {
            None
        } else if is_trap(&external) {
            Some(Rule::OrphanInternal(internal))
        } else {
            Some(Rule::ProjectionToExternal(internal, external))
        },
        Op::Lt => if is_trap(&external) {
            None
        } else if is_trap(&internal) {
            Some(Rule::OrphanExternal(external))
        } else {
            Some(Rule::ProjectionToInternal(internal, external))
        },
    }
}

/// Takes one token in a state: the state that follows, or the error that the
/// token causes.
pub fn next_step(state: State, token: Token) -> (next: Result<State, Error>)
    ensures
        match next {
            Ok(next) => step(state@, token@) == Ok::<StateView, Seq<char>>(next@),
            Err(error) => step(state@, token@) == Err::<StateView, Seq<char>>(error@),
        },
{
    match state {
        State::StartOfRule(data) => match token {
            Token::Ident(_) => Ok(State::Internal(data, token)),
            _ => Err(Error::unexpected_token(&token)),
        },
        State::Internal(data, internal) => match token {
            Token::Punct(ch, _) => match marker_of(ch) {
                Some(op) => Ok(State::Operator(data, internal, op)),
                None => Err(Error::unexpected_token(&token)),
            },
            _ => Err(Error::unexpected_token(&token)),
        },
        State::Operator(data, internal, op) => match token {
            Token::Ident(_) => match finish(op, internal, token) {
                Some(rule) => {
                    let mut data = data;
                    let ghost before = rule_views(data@);
                    data.push(rule);
                    assert(rule_views(data@) =~= before.push(rule@));
                    Ok(State::EndOfRule(data))
                },
                None => Err(Error::misplaced_trap()),
            },
            Token::Punct(ch, _) => match (op, ch) {
                (Op::Eq, '=') => Ok(State::OperatorEnd(data, internal, Op::Eq)),
                (Op::Eq, '>') => Ok(State::OperatorEnd(data, internal, Op::Gt)),
                (Op::Lt, '=') => Ok(State::OperatorEnd(data, internal, Op::Lt)),
                _ => Err(Error::unexpected_token(&token)),
            },
            _ => Err(Error::unexpected_token(&token)),
        },
        State::OperatorEnd(data, internal, op) => match token {
            Token::Ident(_) => match finish(op, internal, token) {
                Some(rule) => {
                    let mut data = data;
                    let ghost before = rule_views(data@);
                    data.push(rule);
                    assert(rule_views(data@) =~= before.push(rule@));
                    Ok(State::EndOfRule(data))
                },
                None => Err(Error::misplaced_trap()),
            },
            _ => Err(Error::unexpected_token(&token)),
        },
        State::EndOfRule(data) => match token {
            Token::Punct(',', _) => Ok(State::StartOfRule(data)),
            _ => Err(Error::unexpected_token(&token)),
        },
    }
}

/// Parses a rule block: its rules in the order in which they stand, or the
/// error in it.
pub fn parse(stream: Vec<Token>) -> (rules: Result<Rules, Error>)
    ensures
        match rules {
            Ok(rules) => parsed(views(stream@)) == Ok::<Seq<RuleView>, Seq<char>>(
                rule_views(rules@),
            ),
            Err(error) => parsed(views(stream@)) == Err::<Seq<RuleView>, Seq<char>>(error@),
        },
        rules matches Ok(rules) ==> all_well_formed(rule_views(rules@)),
{
    let ghost tokens = views(stream@);
    let mut state = State::StartOfRule(Vec::new());
    assert(rule_views(Seq::<Rule>::empty()) =~= Seq::<RuleView>::empty());
    let mut i: usize = 0;
    while i < stream.len()
        invariant
            tokens == views(stream@),
            i <= stream.len(),
            run(tokens, i as nat) == Ok::<StateView, Seq<char>>(state@),
        decreases stream.len() - i,
    {
        match next_step(state, stream[i].clone()) {
            Ok(next) => {
                state = next;
            },
            Err(error) => {
                proof {
                    lemma_run_error_stays(tokens, (i + 1) as nat, tokens.len());
                }
                return Err(error);
            },
        }
        i += 1;
    }
    proof {
        lemma_parsed_well_formed(tokens);
    }
    match state {
        State::StartOfRule(data) => Ok(data),
        State::EndOfRule(data) => Ok(data),
        _ => Err(Error::end_of_rules()),
    }
}

} // verus!
