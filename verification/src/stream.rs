//! The way in from a token stream of `proc_macro2`.

use crate::conversion::{compile, compiled, Conversion, ConversionView};
use crate::error::Error;
use crate::token::{views, Delimiter, Spacing, Token, TokenView};
use vstd::prelude::*;

verus! {

/// `proc_macro2::TokenStream`: a sequence of token trees. Nothing of what
/// is inside one is visible here.
#[verifier::external_type_specification]
#[verifier::external_body]
pub struct ExTokenStream(proc_macro2::TokenStream);

/// The tokens that a stream holds, in order, each group with the tokens
/// inside it and with the text that `proc_macro2` prints for it. Nothing is
/// known of them but that a stream always holds the same ones.
pub uninterp spec fn stream_tokens(stream: proc_macro2::TokenStream) -> Seq<TokenView>;

/// Walks a stream with `IntoIterator::into_iter` of `proc_macro2::TokenStream`
/// and reads each token tree with the accessors of its kind: `to_string` of an
/// `Ident` and of a `Literal`, `Punct::as_char` and `Punct::spacing`,
/// `Group::delimiter`, `Group::stream` and, for the text of a group, its
/// `to_string`. This is not proved. The contract only gives the outcome its
/// name: what comes out are the tokens that the stream holds.
#[verifier::external_body]
fn tokens_of(stream: proc_macro2::TokenStream) -> (tokens: Vec<Token>)
    ensures
        views(tokens@) == stream_tokens(stream),
{
    stream.into_iter().map(|tree| match tree {
        proc_macro2::TokenTree::Ident(ident) => Token::Ident(ident.to_string()),
        proc_macro2::TokenTree::Punct(punct) => Token::Punct(punct.as_char(), match punct.spacing() {
            proc_macro2::Spacing::Alone => Spacing::Alone,
            proc_macro2::Spacing::Joint => Spacing::Joint,
        }),
        proc_macro2::TokenTree::Group(group) => Token::Group(match group.delimiter() {
            proc_macro2::Delimiter::Parenthesis => Delimiter::Parenthesis,
            proc_macro2::Delimiter::Brace => Delimiter::Brace,
            proc_macro2::Delimiter::Bracket => Delimiter::Bracket,
            proc_macro2::Delimiter::None => Delimiter::Invisible,
        }, tokens_of(group.stream()), group.to_string()),
        proc_macro2::TokenTree::Literal(literal) => Token::Literal(literal.to_string()),
    }).collect()
}

/// Parses the specification that a token stream holds and derives what is
/// generated from it.
pub fn bidi_impl(item: proc_macro2::TokenStream) -> (conversion: Result<Conversion, Error>)
    ensures
        match conversion {
            Ok(conversion) => compiled(stream_tokens(item)) == Ok::<ConversionView, Seq<char>>(
                conversion@,
            ),
            Err(error) => compiled(stream_tokens(item)) == Err::<ConversionView, Seq<char>>(
                error@,
            ),
        },
{
    compile(tokens_of(item))
}

} // verus!
