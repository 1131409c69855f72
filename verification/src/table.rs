//! The conversion table of one direction.
//!
//! The rules of a specification describe the direction from the internal to
//! the external set; the rules of its mirror describe the other one. For a
//! direction, the table lists the values that have an image, the image or
//! the lack of one for each value that the rules speak of, and whether any
//! value is left without an image.

use crate::mirror::mirrored_rules;
use crate::model::{rule_views, Rule, RuleView, Rules};
use crate::token::{views, Token, TokenView};
use vstd::prelude::*;

verus! {

/// What a table says of one value: its image, or that it has none.
#[derive(Debug, PartialEq, Eq)]
pub struct Mapping {
    pub source: Token,
    pub target: Option<Token>,
}

/// The mathematical value of a [`Mapping`].
pub struct MappingView {
    pub source: TokenView,
    pub target: Option<TokenView>,
}

/// The value of a token that may be missing.
pub open spec fn optional_view(token: Option<Token>) -> Option<TokenView> {
    match token {
        Some(token) => Some(token@),
        None => None,
    }
}

impl View for Mapping {
    type V = MappingView;

    open spec fn view(&self) -> MappingView {
        MappingView { source: self.source@, target: optional_view(self.target) }
    }
}

/// The values of a sequence of mappings, in order.
pub open spec fn mapping_views(mappings: Seq<Mapping>) -> Seq<MappingView> {
    Seq::new(mappings.len(), |i: int| mappings[i]@)
}

impl RuleView {
    /// The value that the rule gives an image to, if it gives one.
    pub open spec fn source(self) -> Option<TokenView> {
        match self {
            RuleView::Equivalence(internal, _) => Some(internal),
            RuleView::ProjectionToExternal(internal, _) => Some(internal),
            _ => None,
        }
    }

    /// What the rule says of its source value in this direction: the image
    /// for an equivalence and a projection to the external set, the lack of
    /// one for an orphan of the internal set, and nothing for a rule that
    /// belongs to the other direction.
    pub open spec fn arm(self) -> Option<MappingView> {
        match self {
            RuleView::Equivalence(internal, external) => Some(
                MappingView { source: internal, target: Some(external) },
            ),
            RuleView::ProjectionToExternal(internal, external) => Some(
                MappingView { source: internal, target: Some(external) },
            ),
            RuleView::OrphanInternal(internal) => Some(
                MappingView { source: internal, target: None },
            ),
            _ => None,
        }
    }
}

/// The function that takes a rule to the value that it gives an image to.
pub open spec fn source_of() -> spec_fn(RuleView) -> Option<TokenView> {
    |rule: RuleView| rule.source()
}

/// The function that takes a rule to what it says of its source value.
pub open spec fn arm_of() -> spec_fn(RuleView) -> Option<MappingView> {
    |rule: RuleView| rule.arm()
}

/// The values that have an image, in the order of the rules that give them
/// one. A value that several rules give an image to is listed once for each.
pub open spec fn convertibles(rules: Seq<RuleView>) -> Seq<TokenView> {
    rules.filter_map(source_of())
}

/// What the rules say of their source values, in the order of the rules.
pub open spec fn arms(rules: Seq<RuleView>) -> Seq<MappingView> {
    rules.filter_map(arm_of())
}

/// Whether no rule leaves a value of the internal set without an image.
pub open spec fn total(rules: Seq<RuleView>) -> bool {
    forall|i: int| 0 <= i < rules.len() ==> !(#[trigger] rules[i] is OrphanInternal)
}

/// Whether the mapping at `index` is the first one that speaks of `value`.
pub open spec fn decides(mappings: Seq<MappingView>, value: TokenView, index: int) -> bool {
    &&& 0 <= index < mappings.len()
    &&& mappings[index].source == value
    &&& forall|j: int| 0 <= j < index ==> (#[trigger] mappings[j]).source != value
}

/// The image of a value: what the first mapping that speaks of it gives.
/// A value that no mapping speaks of has none.
pub open spec fn image(mappings: Seq<MappingView>, value: TokenView) -> Option<TokenView> {
    if exists|index: int| decides(mappings, value, index) {
        mappings[choose|index: int| decides(mappings, value, index)].target
    } else {
        None
    }
}

/// The image of a value is what the mapping that decides it gives.
pub proof fn lemma_image_decided(mappings: Seq<MappingView>, value: TokenView, index: int)
    requires
        decides(mappings, value, index),
    ensures
        image(mappings, value) == mappings[index].target,
{
    let chosen = choose|index: int| decides(mappings, value, index);
    assert(decides(mappings, value, chosen));
    if chosen < index {
        assert(mappings[chosen].source != value);
    } else if index < chosen {
        assert(mappings[index].source != value);
    }
}

/// The values that have an image under the given rules, in the order of the
/// rules.
pub fn convertible_values(rules: &Rules) -> (values: Vec<Token>)
    ensures
        views(values@) == convertibles(rule_views(rules@)),
{
    let ghost all = rule_views(rules@);
    let mut values: Vec<Token> = Vec::new();
    let mut i: usize = 0;
    assert(views(values@) =~= convertibles(all.take(0)));
    while i < rules.len()
        invariant
            all == rule_views(rules@),
            i <= rules.len(),
            views(values@) == convertibles(all.take(i as int)),
        decreases rules.len() - i,
    {
        proof {
            all.lemma_filter_map_take_succ(source_of(), i as int);
        }
        let ghost before = views(values@);
        match &rules[i] {
            Rule::Equivalence(internal, _) => {
                values.push(internal.clone());
                assert(views(values@) =~= before.push(internal@));
            },
            Rule::ProjectionToExternal(internal, _) => {
                values.push(internal.clone());
                assert(views(values@) =~= before.push(internal@));
            },
            _ => {},
        }
        assert(views(values@) =~= convertibles(all.take(i + 1)));
        i += 1;
    }
    assert(all.take(rules.len() as int) =~= all);
    values
}

/// What the given rules say of their source values, in the order of the
/// rules.
pub fn partial_mapping(rules: &Rules) -> (mappings: Vec<Mapping>)
    ensures
        mapping_views(mappings@) == arms(rule_views(rules@)),
{
    let ghost all = rule_views(rules@);
    let mut mappings: Vec<Mapping> = Vec::new();
    let mut i: usize = 0;
    assert(mapping_views(mappings@) =~= arms(all.take(0)));
    while i < rules.len()
        invariant
            all == rule_views(rules@),
            i <= rules.len(),
            mapping_views(mappings@) == arms(all.take(i as int)),
        decreases rules.len() - i,
    {
        proof {
            all.lemma_filter_map_take_succ(arm_of(), i as int);
        }
        let ghost before = mapping_views(mappings@);
        match &rules[i] {
            Rule::Equivalence(internal, external) => {
                let mapping = Mapping { source: internal.clone(), target: Some(external.clone()) };
                mappings.push(mapping);
                assert(mapping_views(mappings@) =~= before.push(mapping@));
            },
            Rule::ProjectionToExternal(internal, external) => {
                let mapping = Mapping { source: internal.clone(), target: Some(external.clone()) };
                mappings.push(mapping);
                assert(mapping_views(mappings@) =~= before.push(mapping@));
            },
            Rule::OrphanInternal(internal) => {
                let mapping = Mapping { source: internal.clone(), target: None };
                mappings.push(mapping);
                assert(mapping_views(mappings@) =~= before.push(mapping@));
            },
            _ => {},
        }
        assert(mapping_views(mappings@) =~= arms(all.take(i + 1)));
        i += 1;
    }
    assert(all.take(rules.len() as int) =~= all);
    mappings
}

/// Whether no rule leaves a value of the internal set without an image.
pub fn is_total(rules: &Rules) -> (whole: bool)
    ensures
        whole == total(rule_views(rules@)),
{
    let mut i: usize = 0;
    while i < rules.len()
        invariant
            i <= rules.len(),
            forall|j: int| 0 <= j < i ==> !(#[trigger] rule_views(rules@)[j] is OrphanInternal),
        decreases rules.len() - i,
    {
        match &rules[i] {
            Rule::OrphanInternal(_) => {
                assert(rule_views(rules@)[i as int] is OrphanInternal);
                return false;
            },
            _ => {},
        }
        i += 1;
    }
    true
}

/// Looks a value up: the image that the first mapping that speaks of it
/// gives. There is none where that mapping gives none and where no mapping
/// speaks of the value.
pub fn convert_opt(mappings: &Vec<Mapping>, value: &Token) -> (to_value: Option<Token>)
    ensures
        optional_view(to_value) == image(mapping_views(mappings@), value@),
{
    let ghost all = mapping_views(mappings@);
    let mut i: usize = 0;
    while i < mappings.len()
        invariant
            all == mapping_views(mappings@),
            i <= mappings.len(),
            forall|j: int| 0 <= j < i ==> (#[trigger] all[j]).source != value@,
        decreases mappings.len() - i,
    {
        if mappings[i].source == *value {
            proof {
                lemma_image_decided(all, value@, i as int);
            }
            return match &mappings[i].target {
                Some(target) => Some(target.clone()),
                None => None,
            };
        }
        i += 1;
    }
    assert(forall|index: int| !decides(all, value@, index));
    None
}

/// Converts a value that has an image.
pub fn convert(mappings: &Vec<Mapping>, value: &Token) -> (to_value: Token)
    requires
        image(mapping_views(mappings@), value@) is Some,
    ensures
        image(mapping_views(mappings@), value@) == Some(to_value@),
{
    convert_opt(mappings, value).unwrap()
}

/// What a function keeps of a sequence in two parts is what it keeps of the
/// first part, followed by what it keeps of the second.
pub proof fn lemma_filter_map_concat<A, B>(
    first: Seq<A>,
    second: Seq<A>,
    keep: spec_fn(A) -> Option<B>,
)
    ensures
        (first + second).filter_map(keep) == first.filter_map(keep) + second.filter_map(keep),
    decreases second.len(),
{
    if second.len() == 0 {
        assert(first + second =~= first);
        assert(first.filter_map(keep) + second.filter_map(keep) =~= first.filter_map(keep));
    } else {
        lemma_filter_map_concat(first, second.drop_last(), keep);
        assert((first + second).drop_last() =~= first + second.drop_last());
        assert((first + second).last() == second.last());
        assert((first + second).filter_map(keep) =~= first.filter_map(keep) + second.filter_map(
            keep,
        ));
    }
}

/// What a function keeps of a sequence, split at the element at `index`:
/// what it keeps of the elements in front, of that element, and of the
/// elements behind.
pub proof fn lemma_filter_map_split<A, B>(all: Seq<A>, index: int, keep: spec_fn(A) -> Option<B>)
    requires
        0 <= index < all.len(),
    ensures
        all.filter_map(keep) == all.take(index).filter_map(keep) + seq![all[index]].filter_map(
            keep,
        ) + all.skip(index + 1).filter_map(keep),
        all.remove(index).filter_map(keep) == all.take(index).filter_map(keep) + all.skip(
            index + 1,
        ).filter_map(keep),
{
    let front = all.take(index);
    let back = all.skip(index + 1);
    assert(all =~= front + seq![all[index]] + back);
    assert(all.remove(index) =~= front + back);
    lemma_filter_map_concat(front + seq![all[index]], back, keep);
    lemma_filter_map_concat(front, seq![all[index]], keep);
    lemma_filter_map_concat(front, back, keep);
}

/// Whether the rule at `index` says something of its source value, and no
/// rule in front of it speaks of the same value.
pub open spec fn speaks_first(rules: Seq<RuleView>, index: int) -> bool {
    &&& 0 <= index < rules.len()
    &&& rules[index].arm() is Some
    &&& forall|j: int|
        0 <= j < index ==> !((#[trigger] rules[j]).arm() matches Some(earlier) && earlier.source
            == rules[index].arm().unwrap().source)
}

/// What a function keeps of an element of a sequence is among what it keeps
/// of the sequence.
pub proof fn lemma_kept_is_listed<A, B>(all: Seq<A>, index: int, keep: spec_fn(A) -> Option<B>)
    requires
        0 <= index < all.len(),
        keep(all[index]) is Some,
    ensures
        all.filter_map(keep).contains(keep(all[index]).unwrap()),
{
    let front = all.take(index).filter_map(keep);
    lemma_filter_map_split(all, index, keep);
    Seq::lemma_filter_map_singleton(all[index], keep);
    assert(all.filter_map(keep)[front.len() as int] == keep(all[index]).unwrap());
}

/// The image of the source value of a rule is what that rule says, where no
/// rule in front of it speaks of the same value.
pub proof fn lemma_first_rule_decides(rules: Seq<RuleView>, index: int)
    requires
        speaks_first(rules, index),
    ensures
        image(arms(rules), rules[index].arm().unwrap().source) == rules[index].arm().unwrap().target,
{
    let own = rules[index].arm().unwrap();
    let front = arms(rules.take(index));
    lemma_filter_map_split(rules, index, arm_of());
    Seq::lemma_filter_map_singleton(rules[index], arm_of());
    let place = front.len() as int;
    assert(arms(rules)[place] == own);
    assert forall|j: int| 0 <= j < place implies (#[trigger] arms(rules)[j]).source
        != own.source by {
        let earlier = front[j];
        assert(arms(rules)[j] == earlier);
        assert(front.contains(earlier));
        rules.take(index).lemma_filter_map_contains(arm_of(), earlier);
        let rule = choose|rule: RuleView| #[trigger]
            rules.take(index).contains(rule) && arm_of()(rule) == Some(earlier);
        let at = choose|at: int| 0 <= at < rules.take(index).len() && rules.take(index)[at] == rule;
        assert(rules[at] == rule);
    }
    assert(decides(arms(rules), own.source, place));
    lemma_image_decided(arms(rules), own.source, place);
}

/// An equivalence: each of its two values is listed among the values of its
/// side that have an image, and the table of each direction holds the mapping
/// of the one to the other. The image of the one is the other in each
/// direction in which no rule in front speaks of the same value.
pub proof fn lemma_equivalence(
    rules: Seq<RuleView>,
    index: int,
    internal: TokenView,
    external: TokenView,
)
    requires
        0 <= index < rules.len(),
        rules[index] == RuleView::Equivalence(internal, external),
    ensures
        convertibles(rules).contains(internal),
        arms(rules).contains(MappingView { source: internal, target: Some(external) }),
        speaks_first(rules, index) ==> image(arms(rules), internal) == Some(external),
        convertibles(mirrored_rules(rules)).contains(external),
        arms(mirrored_rules(rules)).contains(
            MappingView { source: external, target: Some(internal) },
        ),
        speaks_first(mirrored_rules(rules), index) ==> image(
            arms(mirrored_rules(rules)),
            external,
        ) == Some(internal),
{
    let mirrored = mirrored_rules(rules);
    lemma_kept_is_listed(rules, index, source_of());
    lemma_kept_is_listed(rules, index, arm_of());
    lemma_kept_is_listed(mirrored, index, source_of());
    lemma_kept_is_listed(mirrored, index, arm_of());
    if speaks_first(rules, index) {
        lemma_first_rule_decides(rules, index);
    }
    if speaks_first(mirrored, index) {
        lemma_first_rule_decides(mirrored, index);
    }
}

/// A projection to the external set: its internal value is listed among the
/// values that have an image, the table holds its mapping to the external
/// value, and its image is the external value where no rule in front speaks
/// of the same value. In the other direction the rule says nothing: the table
/// of that direction is the one that the other rules give.
pub proof fn lemma_projection_to_external(
    rules: Seq<RuleView>,
    index: int,
    internal: TokenView,
    external: TokenView,
)
    requires
        0 <= index < rules.len(),
        rules[index] == RuleView::ProjectionToExternal(internal, external),
    ensures
        convertibles(rules).contains(internal),
        arms(rules).contains(MappingView { source: internal, target: Some(external) }),
        speaks_first(rules, index) ==> image(arms(rules), internal) == Some(external),
        arms(mirrored_rules(rules)) == arms(mirrored_rules(rules.remove(index))),
        convertibles(mirrored_rules(rules)) == convertibles(mirrored_rules(rules.remove(index))),
{
    lemma_kept_is_listed(rules, index, source_of());
    lemma_kept_is_listed(rules, index, arm_of());
    if speaks_first(rules, index) {
        lemma_first_rule_decides(rules, index);
    }
    let mirrored = mirrored_rules(rules);
    assert(mirrored.remove(index) =~= mirrored_rules(rules.remove(index)));
    lemma_filter_map_split(mirrored, index, arm_of());
    lemma_filter_map_split(mirrored, index, source_of());
    Seq::lemma_filter_map_singleton(mirrored[index], arm_of());
    Seq::lemma_filter_map_singleton(mirrored[index], source_of());
    assert(arms(mirrored) =~= arms(mirrored.remove(index)));
    assert(convertibles(mirrored) =~= convertibles(mirrored.remove(index)));
}

/// An orphan of the internal set: the table holds its value with no image,
/// the value has no image where no rule in front speaks of it, and the
/// direction is not total.
pub proof fn lemma_orphan_internal(rules: Seq<RuleView>, index: int, internal: TokenView)
    requires
        0 <= index < rules.len(),
        rules[index] == RuleView::OrphanInternal(internal),
    ensures
        arms(rules).contains(MappingView { source: internal, target: None }),
        speaks_first(rules, index) ==> image(arms(rules), internal) is None,
        !total(rules),
{
    lemma_kept_is_listed(rules, index, arm_of());
    if speaks_first(rules, index) {
        lemma_first_rule_decides(rules, index);
    }
}

/// A value that some mapping speaks of is decided by the first mapping that
/// speaks of it.
pub proof fn lemma_first_mapping(mappings: Seq<MappingView>, value: TokenView, index: int)
    requires
        0 <= index < mappings.len(),
        mappings[index].source == value,
    ensures
        exists|first: int| 0 <= first <= index && decides(mappings, value, first),
    decreases index,
{
    if exists|j: int| 0 <= j < index && (#[trigger] mappings[j]).source == value {
        let j = choose|j: int| 0 <= j < index && (#[trigger] mappings[j]).source == value;
        lemma_first_mapping(mappings, value, j);
    } else {
        assert(decides(mappings, value, index));
    }
}

/// In a total direction every mapping gives an image.
pub proof fn lemma_total_mappings(rules: Seq<RuleView>)
    requires
        total(rules),
    ensures
        forall|i: int| 0 <= i < arms(rules).len() ==> (#[trigger] arms(rules)[i]).target is Some,
{
    assert forall|i: int| 0 <= i < arms(rules).len() implies (#[trigger] arms(rules)[i]).target
        is Some by {
        let mapping = arms(rules)[i];
        assert(arms(rules).contains(mapping));
        rules.lemma_filter_map_contains(arm_of(), mapping);
        let rule = choose|rule: RuleView| #[trigger]
            rules.contains(rule) && arm_of()(rule) == Some(mapping);
        let at = choose|at: int| 0 <= at < rules.len() && rules[at] == rule;
        assert(!(rules[at] is OrphanInternal));
    }
}

/// In a total direction every value that the table speaks of has an image,
/// so that a conversion which takes the image for granted is safe on it.
pub proof fn lemma_total_has_images(rules: Seq<RuleView>, value: TokenView, index: int)
    requires
        total(rules),
        0 <= index < arms(rules).len(),
        arms(rules)[index].source == value,
    ensures
        image(arms(rules), value) is Some,
{
    lemma_first_mapping(arms(rules), value, index);
    let first = choose|first: int| 0 <= first <= index && decides(arms(rules), value, first);
    lemma_image_decided(arms(rules), value, first);
    lemma_total_mappings(rules);
}

/// The direction of the mirror is total unless a rule leaves a value of the
/// external set without a counterpart; such a rule does not keep the
/// direction of the rules themselves from being total.
pub proof fn lemma_total_of_mirror(rules: Seq<RuleView>)
    ensures
        total(mirrored_rules(rules)) == (forall|i: int|
            0 <= i < rules.len() ==> !(#[trigger] rules[i] is OrphanExternal)),
{
    if total(mirrored_rules(rules)) {
        assert forall|i: int| 0 <= i < rules.len() implies !(#[trigger] rules[i]
            is OrphanExternal) by {
            assert(!(mirrored_rules(rules)[i] is OrphanInternal));
        }
    }
}

} // verus!
