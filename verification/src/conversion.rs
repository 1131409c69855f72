//! From the tokens of a specification to everything that is generated from
//! it: the specification, its mirror, and the conversion table of each
//! direction.

use crate::error::Error;
use crate::mirror::mirror;
use crate::model::{rule_views, Definition, DefinitionView, RuleView, Rules};
use crate::table::{
    arms, convertible_values, convertibles, is_total, mapping_views, partial_mapping, total,
    Mapping, MappingView,
};
use crate::token::{views, Spacing, Token, TokenView};
use crate::type_parser;
use vstd::prelude::*;

verus! {

/// The conversion table of one direction.
#[derive(Debug, PartialEq, Eq)]
pub struct Table {
    /// The values that have an image, in the order of the rules.
    pub convertibles: Vec<Token>,
    /// The image, or the lack of one, of each value that the rules speak of.
    pub mappings: Vec<Mapping>,
    /// Whether no value is left without an image.
    pub total: bool,
}

/// The mathematical value of a [`Table`].
pub struct TableView {
    pub convertibles: Seq<TokenView>,
    pub mappings: Seq<MappingView>,
    pub total: bool,
}

impl View for Table {
    type V = TableView;

    open spec fn view(&self) -> TableView {
        TableView {
            convertibles: views(self.convertibles@),
            mappings: mapping_views(self.mappings@),
            total: self.total,
        }
    }
}

/// The table of the direction that the given rules describe.
pub open spec fn table_of(rules: Seq<RuleView>) -> TableView {
    TableView { convertibles: convertibles(rules), mappings: arms(rules), total: total(rules) }
}

/// Everything that is generated from a specification.
#[derive(Debug, PartialEq, Eq)]
pub struct Conversion {
    /// The specification as it was written.
    pub definition: Definition,
    /// The specification as the external side sees it.
    pub mirror: Definition,
    /// The table of the direction from the internal to the external set.
    pub internal: Table,
    /// The table of the direction from the external to the internal set.
    pub external: Table,
}

/// The mathematical value of a [`Conversion`].
pub struct ConversionView {
    pub definition: DefinitionView,
    pub mirror: DefinitionView,
    pub internal: TableView,
    pub external: TableView,
}

impl View for Conversion {
    type V = ConversionView;

    open spec fn view(&self) -> ConversionView {
        ConversionView {
            definition: self.definition@,
            mirror: self.mirror@,
            internal: self.internal@,
            external: self.external@,
        }
    }
}

/// Everything that is generated from the given specification.
pub open spec fn conversion_of(definition: DefinitionView) -> ConversionView {
    ConversionView {
        definition,
        mirror: definition.mirror(),
        internal: table_of(definition.rules),
        external: table_of(definition.mirror().rules),
    }
}

/// What is generated from the specification that the tokens spell, or the
/// message of the error in them.
pub open spec fn compiled(tokens: Seq<TokenView>) -> Result<ConversionView, Seq<char>> {
    match type_parser::parsed(tokens) {
        Ok(definition) => Ok(conversion_of(definition)),
        Err(message) => Err(message),
    }
}

/// The path by which generated code refers to the converter traits: that of
/// the crate it stands in for a specification marked for tests, the published
/// one for every other.
pub open spec fn prefix_tokens(for_tests: bool) -> Seq<TokenView> {
    if for_tests {
        seq![TokenView::Ident("crate"@)]
    } else {
        seq![
            TokenView::Punct(':', Spacing::Joint),
            TokenView::Punct(':', Spacing::Alone),
            TokenView::Ident("bidi"@),
        ]
    }
}

/// The path by which the code generated for a specification refers to the
/// converter traits.
pub fn prefix(def: &Definition) -> (path: Vec<Token>)
    ensures
        views(path@) == prefix_tokens(def.for_tests),
{
    let mut path: Vec<Token> = Vec::new();
    if def.for_tests {
        path.push(Token::Ident(String::from_str("crate")));
    } else {
        path.push(Token::Punct(':', Spacing::Joint));
        path.push(Token::Punct(':', Spacing::Alone));
        path.push(Token::Ident(String::from_str("bidi")));
    }
    assert(views(path@) =~= prefix_tokens(def.for_tests));
    path
}

/// The table of the direction that the given rules describe.
pub fn build_table(rules: &Rules) -> (table: Table)
    ensures
        table@ == table_of(rule_views(rules@)),
{
    Table {
        convertibles: convertible_values(rules),
        mappings: partial_mapping(rules),
        total: is_total(rules),
    }
}

/// Parses a specification and derives what is generated from it.
pub fn compile(stream: Vec<Token>) -> (conversion: Result<Conversion, Error>)
    ensures
        match conversion {
            Ok(conversion) => compiled(views(stream@)) == Ok::<ConversionView, Seq<char>>(
                conversion@,
            ),
            Err(error) => compiled(views(stream@)) == Err::<ConversionView, Seq<char>>(error@),
        },
        conversion matches Ok(conversion) ==> conversion.definition@.well_formed(),
{
    match type_parser::parse(stream) {
        Ok(definition) => {
            let mirrored = mirror(&definition);
            let internal = build_table(&definition.rules);
            let external = build_table(&mirrored.rules);
            Ok(Conversion { definition, mirror: mirrored, internal, external })
        },
        Err(error) => Err(error),
    }
}

} // verus!
