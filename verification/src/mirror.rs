//! The same specification, seen from the other side.
//!
//! Mirroring swaps the two types and turns every rule round: an equivalence
//! stays one with its values swapped, a projection becomes the projection
//! the other way, and an orphan of one side becomes an orphan of the other.

use crate::model::{clone_tokens, rule_views, Definition, DefinitionView, Rule, RuleView};
use vstd::prelude::*;

verus! {

impl RuleView {
    /// The rule as the other side sees it.
    pub open spec fn mirror(self) -> RuleView {
        match self {
            RuleView::Equivalence(internal, external) => RuleView::Equivalence(external, internal),
            RuleView::ProjectionToExternal(internal, external) => RuleView::ProjectionToInternal(
                external,
                internal,
            ),
            RuleView::ProjectionToInternal(internal, external) => RuleView::ProjectionToExternal(
                external,
                internal,
            ),
            RuleView::OrphanExternal(external) => RuleView::OrphanInternal(external),
            RuleView::OrphanInternal(internal) => RuleView::OrphanExternal(internal),
        }
    }
}

/// Every rule of a sequence as the other side sees it, in the same order.
pub open spec fn mirrored_rules(rules: Seq<RuleView>) -> Seq<RuleView> {
    Seq::new(rules.len(), |i: int| rules[i].mirror())
}

impl DefinitionView {
    /// The specification as the other side sees it.
    pub open spec fn mirror(self) -> DefinitionView {
        DefinitionView {
            for_tests: self.for_tests,
            name: self.name,
            internal_type: self.external_type,
            external_type: self.internal_type,
            rules: mirrored_rules(self.rules),
        }
    }
}

/// The rule as the other side sees it.
pub fn mirror_rule(rule: &Rule) -> (mirrored: Rule)
    ensures
        mirrored@ == rule@.mirror(),
{
    match rule {
        Rule::Equivalence(internal, external) => Rule::Equivalence(
            external.clone(),
            internal.clone(),
        ),
        Rule::ProjectionToExternal(internal, external) => Rule::ProjectionToInternal(
            external.clone(),
            internal.clone(),
        ),
        Rule::ProjectionToInternal(internal, external) => Rule::ProjectionToExternal(
            external.clone(),
            internal.clone(),
        ),
        Rule::OrphanExternal(external) => Rule::OrphanInternal(external.clone()),
        Rule::OrphanInternal(internal) => Rule::OrphanExternal(internal.clone()),
    }
}

/// The specification as the other side sees it.
pub fn mirror(direct: &Definition) -> (mirrored: Definition)
    ensures
        mirrored@ == direct@.mirror(),
{
    let mut rules: Vec<Rule> = Vec::new();
    let mut i: usize = 0;
    while i < direct.rules.len()
        invariant
            i <= direct.rules.len(),
            rules.len() == i,
            forall|j: int| 0 <= j < i ==> rules[j]@ == direct.rules[j]@.mirror(),
        decreases direct.rules.len() - i,
    {
        rules.push(mirror_rule(&direct.rules[i]));
        i += 1;
    }
    assert(rule_views(rules@) =~= mirrored_rules(rule_views(direct.rules@)));
    Definition {
        for_tests: direct.for_tests,
        name: direct.name.clone(),
        external_type: clone_tokens(&direct.internal_type),
        internal_type: clone_tokens(&direct.external_type),
        rules,
    }
}

/// Mirroring a rule twice gives the rule back.
pub proof fn lemma_mirror_rule_twice(rule: RuleView)
    ensures
        rule.mirror().mirror() == rule,
{
}

/// Mirroring a specification twice gives the specification back: the same
/// flag, name and types, and the same rules in the same order.
pub proof fn lemma_mirror_twice(definition: DefinitionView)
    ensures
        definition.mirror().mirror() == definition,
{
    assert(mirrored_rules(mirrored_rules(definition.rules)) =~= definition.rules);
}

/// A specification and its mirror are well formed together.
pub proof fn lemma_mirror_well_formed(definition: DefinitionView)
    ensures
        definition.mirror().well_formed() == definition.well_formed(),
{
    let mirrored = definition.mirror();
    if definition.well_formed() {
        assert forall|i: int| 0 <= i < mirrored.rules.len() implies (
        #[trigger] mirrored.rules[i]).well_formed() by {
            assert(definition.rules[i].well_formed());
        }
    }
    if mirrored.well_formed() {
        assert forall|i: int| 0 <= i < definition.rules.len() implies (
        #[trigger] definition.rules[i]).well_formed() by {
            assert(mirrored.rules[i].well_formed());
        }
    }
}

} // verus!
