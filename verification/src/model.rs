//! What a parsed specification says: its rules and the two types they relate.

use crate::token::{views, Spacing, Token, TokenView};
use vstd::prelude::*;

verus! {

/// How one value of the internal set, one of the external set, or one of
/// each takes part in the correspondence.
#[derive(Debug, PartialEq, Eq)]
pub enum Rule {
    /// The internal and the external value correspond in both directions.
    Equivalence(Token, Token),
    /// The external value maps to the internal one; nothing is said of the
    /// way back.
    ProjectionToInternal(Token, Token),
    /// The internal value maps to the external one; nothing is said of the
    /// way back.
    ProjectionToExternal(Token, Token),
    /// The internal value has no external counterpart.
    OrphanInternal(Token),
    /// The external value has no internal counterpart.
    OrphanExternal(Token),
}

/// The rules of a specification, in the order in which they were written.
pub type Rules = Vec<Rule>;

/// The mathematical value of a [`Rule`].
pub enum RuleView {
    Equivalence(TokenView, TokenView),
    ProjectionToInternal(TokenView, TokenView),
    ProjectionToExternal(TokenView, TokenView),
    OrphanInternal(TokenView),
    OrphanExternal(TokenView),
}

impl View for Rule {
    type V = RuleView;

    open spec fn view(&self) -> RuleView {
        match self {
            Rule::Equivalence(internal, external) => RuleView::Equivalence(internal@, external@),
            Rule::ProjectionToInternal(internal, external) => RuleView::ProjectionToInternal(
                internal@,
                external@,
            ),
            Rule::ProjectionToExternal(internal, external) => RuleView::ProjectionToExternal(
                internal@,
                external@,
            ),
            Rule::OrphanInternal(internal) => RuleView::OrphanInternal(internal@),
            Rule::OrphanExternal(external) => RuleView::OrphanExternal(external@),
        }
    }
}

impl Clone for Rule {
    fn clone(&self) -> (copy: Rule)
        ensures
            copy@ == self@,
    {
        match self {
            Rule::Equivalence(internal, external) => Rule::Equivalence(
                internal.clone(),
                external.clone(),
            ),
            Rule::ProjectionToInternal(internal, external) => Rule::ProjectionToInternal(
                internal.clone(),
                external.clone(),
            ),
            Rule::ProjectionToExternal(internal, external) => Rule::ProjectionToExternal(
                internal.clone(),
                external.clone(),
            ),
            Rule::OrphanInternal(internal) => Rule::OrphanInternal(internal.clone()),
            Rule::OrphanExternal(external) => Rule::OrphanExternal(external.clone()),
        }
    }
}

/// The values of a sequence of rules, in order.
pub open spec fn rule_views(rules: Seq<Rule>) -> Seq<RuleView> {
    Seq::new(rules.len(), |i: int| rules[i]@)
}

/// Whether a token can name a value in a rule: an identifier other than the
/// placeholder.
pub open spec fn names_value(token: TokenView) -> bool {
    token is Ident && !token.is_trap()
}

impl RuleView {
    /// Whether every value that the rule names is an identifier other than
    /// the placeholder.
    pub open spec fn well_formed(self) -> bool {
        match self {
            RuleView::Equivalence(internal, external) => names_value(internal) && names_value(
                external,
            ),
            RuleView::ProjectionToInternal(internal, external) => names_value(internal)
                && names_value(external),
            RuleView::ProjectionToExternal(internal, external) => names_value(internal)
                && names_value(external),
            RuleView::OrphanInternal(internal) => names_value(internal),
            RuleView::OrphanExternal(external) => names_value(external),
        }
    }
}

/// Whether every rule of a sequence names its values by identifiers other
/// than the placeholder.
pub open spec fn all_well_formed(rules: Seq<RuleView>) -> bool {
    forall|i: int| 0 <= i < rules.len() ==> (#[trigger] rules[i]).well_formed()
}

/// Whether a token is a colon that is immediately followed by another
/// punctuation character: the first half of a separator `::`.
pub open spec fn opens_separator(token: TokenView) -> bool {
    token == TokenView::Punct(':', Spacing::Joint)
}

/// The place of the token at `index` in the pattern that a qualified name
/// repeats: 0 for an identifier, 1 for the first colon of a separator and 2
/// for the second.
pub open spec fn name_phase(index: int) -> int {
    index % 3
}

/// Whether a token can stand at a place of the pattern.
pub open spec fn fits_phase(token: TokenView, phase: int) -> bool {
    if phase == 0 {
        token is Ident
    } else if phase == 1 {
        opens_separator(token)
    } else {
        token.is_punct(':')
    }
}

/// Whether a sequence of tokens is the beginning of a qualified name.
pub open spec fn begins_name(tokens: Seq<TokenView>) -> bool {
    forall|i: int| 0 <= i < tokens.len() ==> fits_phase(#[trigger] tokens[i], name_phase(i))
}

/// Whether a sequence of tokens is a qualified name: identifiers separated
/// by `::`, with an identifier at each end.
pub open spec fn qualified_name(tokens: Seq<TokenView>) -> bool {
    &&& tokens.len() > 0
    &&& begins_name(tokens)
    &&& name_phase(tokens.len() - 1) == 0
}

/// A parsed specification.
#[derive(Debug, PartialEq, Eq)]
pub struct Definition {
    /// Whether what is generated refers to the converter traits by the path
    /// of the crate it stands in, and not by the published one.
    pub for_tests: bool,
    /// The name of the type to generate.
    pub name: Token,
    /// The qualified name of the internal type.
    pub internal_type: Vec<Token>,
    /// The qualified name of the external type.
    pub external_type: Vec<Token>,
    /// The rules, in the order in which they were written.
    pub rules: Rules,
}

/// The mathematical value of a [`Definition`].
pub struct DefinitionView {
    pub for_tests: bool,
    pub name: TokenView,
    pub internal_type: Seq<TokenView>,
    pub external_type: Seq<TokenView>,
    pub rules: Seq<RuleView>,
}

impl DefinitionView {
    /// Whether the specification is one that a parse can give: the name of
    /// the generated type is an identifier, the two types are qualified
    /// names, and every rule is well formed.
    pub open spec fn well_formed(self) -> bool {
        &&& self.name is Ident
        &&& qualified_name(self.internal_type)
        &&& qualified_name(self.external_type)
        &&& all_well_formed(self.rules)
    }
}

impl View for Definition {
    type V = DefinitionView;

    open spec fn view(&self) -> DefinitionView {
        DefinitionView {
            for_tests: self.for_tests,
            name: self.name@,
            internal_type: views(self.internal_type@),
            external_type: views(self.external_type@),
            rules: rule_views(self.rules@),
        }
    }
}

/// A copy of a sequence of tokens.
pub fn clone_tokens(tokens: &Vec<Token>) -> (copy: Vec<Token>)
    ensures
        views(copy@) == views(tokens@),
{
    let mut copy: Vec<Token> = Vec::new();
    let mut i: usize = 0;
    while i < tokens.len()
        invariant
            i <= tokens.len(),
            copy.len() == i,
            forall|j: int| 0 <= j < i ==> copy[j]@ == tokens[j]@,
        decreases tokens.len() - i,
    {
        copy.push(tokens[i].clone());
        i += 1;
    }
    assert(views(copy@) =~= views(tokens@));
    copy
}

} // verus!
