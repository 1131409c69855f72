//! The lexical tokens that the parsers consume.
//!
//! A token is an identifier, a punctuation character with its spacing, a
//! delimited group of tokens, or a literal. The parsers look only at the
//! kind of a token, at a punctuation character and its spacing, and at the
//! text of an identifier. An error message shows a token as its source
//! printed it: an identifier and a literal are kept as their text, a
//! punctuation character prints as itself, and a group carries its text with
//! it.

use vstd::prelude::*;
use vstd::std_specs::cmp::PartialEqSpecImpl;

verus! {

/// How a group of tokens is delimited.
#[derive(Clone, Copy, Debug, PartialEq, Eq, Structural)]
pub enum Delimiter {
    Parenthesis,
    Brace,
    Bracket,
    /// No visible delimiter.
    Invisible,
}

/// Whether a punctuation character is immediately followed by another one.
#[derive(Clone, Copy, Debug, PartialEq, Eq, Structural)]
pub enum Spacing {
    Alone,
    Joint,
}

/// One lexical token. Two tokens are equal where their values are.
#[derive(Debug, Eq)]
pub enum Token {
    /// An identifier, with its text.
    Ident(String),
    /// A single punctuation character.
    Punct(char, Spacing),
    /// A delimited sequence of tokens, with the text that its source printed
    /// for the whole group.
    Group(Delimiter, Vec<Token>, String),
    /// A literal, with its text.
    Literal(String),
}

/// The mathematical value of a [`Token`].
pub enum TokenView {
    Ident(Seq<char>),
    Punct(char, Spacing),
    Group(Delimiter, Seq<TokenView>, Seq<char>),
    Literal(Seq<char>),
}

impl Token {
    /// The mathematical value of the token.
    pub open spec fn value(&self) -> TokenView
        decreases self,
    {
        match self {
            Token::Ident(text) => TokenView::Ident(text@),
            Token::Punct(ch, spacing) => TokenView::Punct(*ch, *spacing),
            Token::Group(delimiter, inner, text) => TokenView::Group(
                *delimiter,
                Seq::new(
                    inner@.len(),
                    |i: int|
                        if 0 <= i < inner@.len() {
                            inner@[i].value()
                        } else {
                            TokenView::Punct(' ', Spacing::Alone)
                        },
                ),
                text@,
            ),
            Token::Literal(text) => TokenView::Literal(text@),
        }
    }
}

impl View for Token {
    type V = TokenView;

    open spec fn view(&self) -> TokenView {
        self.value()
    }
}

/// The values of a sequence of tokens, in order.
pub open spec fn views(tokens: Seq<Token>) -> Seq<TokenView> {
    Seq::new(tokens.len(), |i: int| tokens[i]@)
}

/// The value of a group is made of the values of its tokens and of its text.
pub proof fn lemma_group_view(delimiter: Delimiter, inner: Vec<Token>, text: String)
    ensures
        Token::Group(delimiter, inner, text)@ == TokenView::Group(
            delimiter,
            views(inner@),
            text@,
        ),
{
    assert(Token::Group(delimiter, inner, text)@->Group_1 =~= views(inner@));
}

/// The text of the reserved placeholder identifier.
pub open spec fn trap_text() -> Seq<char> {
    seq!['_']
}

/// The reserved placeholder identifier `_`, which stands where a value has
/// no counterpart.
pub open spec fn trap() -> TokenView {
    TokenView::Ident(trap_text())
}

impl TokenView {
    /// Whether this is the reserved placeholder identifier `_`.
    pub open spec fn is_trap(self) -> bool {
        self == trap()
    }

    /// Whether this is the punctuation character `ch`, with any spacing.
    pub open spec fn is_punct(self, ch: char) -> bool {
        self matches TokenView::Punct(c, _) && c == ch
    }

    /// The textual form of the token, as error messages show it: the text
    /// that the token holds, and the character itself for a punctuation
    /// character.
    pub open spec fn text(self) -> Seq<char> {
        match self {
            TokenView::Ident(text) => text,
            TokenView::Punct(ch, _) => seq![ch],
            TokenView::Group(_, _, text) => text,
            TokenView::Literal(text) => text,
        }
    }
}

/// `String::push`: the character is appended to the string.
#[verifier::external_body]
fn push_char(text: &mut String, ch: char)
    ensures
        final(text)@ == old(text)@.push(ch),
{
    text.push(ch);
}

impl Clone for Token {
    fn clone(&self) -> (copy: Token)
        ensures
            copy@ == self@,
        decreases self,
    {
        match self {
            Token::Ident(text) => Token::Ident(text.clone()),
            Token::Punct(ch, spacing) => Token::Punct(*ch, *spacing),
            Token::Group(delimiter, inner, text) => {
                let mut copies: Vec<Token> = Vec::new();
                let mut i: usize = 0;
                while i < inner.len()
                    invariant
                        *self == Token::Group(*delimiter, *inner, *text),
                        i <= inner.len(),
                        copies.len() == i,
                        forall|j: int| 0 <= j < i ==> copies[j]@ == inner[j]@,
                    decreases inner.len() - i,
                {
                    proof {
                        vstd::std_specs::vec::axiom_vec_index_decreases(*inner, i as int);
                        assert(decreases_to!(*self => self->Group_1));
                    }
                    copies.push(inner[i].clone());
                    i += 1;
                }
                let copy = Token::Group(*delimiter, copies, text.clone());
                assert(copy@->Group_1 =~= self@->Group_1);
                copy
            },
            Token::Literal(text) => Token::Literal(text.clone()),
        }
    }
}

impl PartialEq for Token {
    fn eq(&self, other: &Token) -> (equal: bool)
        decreases self,
    {
        match (self, other) {
            (Token::Ident(left), Token::Ident(right)) => *left == *right,
            (Token::Punct(left, left_spacing), Token::Punct(right, right_spacing)) => *left
                == *right && *left_spacing == *right_spacing,
            (
                Token::Group(left_delimiter, left, left_text),
                Token::Group(right_delimiter, right, right_text),
            ) => {
                proof {
                    lemma_group_view(*left_delimiter, *left, *left_text);
                    lemma_group_view(*right_delimiter, *right, *right_text);
                }
                let alike = *left_delimiter == *right_delimiter && left.len() == right.len()
                    && *left_text == *right_text;
                if !alike {
                    assert(views(left@).len() != views(right@).len() || *left_delimiter
                        != *right_delimiter || left_text@ != right_text@);
                    return false;
                }
                let mut i: usize = 0;
                while i < left.len()
                    invariant
                        *self == Token::Group(*left_delimiter, *left, *left_text),
                        self@ == TokenView::Group(*left_delimiter, views(left@), left_text@),
                        other@ == TokenView::Group(*right_delimiter, views(right@), right_text@),
                        left.len() == right.len(),
                        i <= left.len(),
                        forall|j: int| 0 <= j < i ==> left[j]@ == right[j]@,
                    decreases left.len() - i,
                {
                    proof {
                        vstd::std_specs::vec::axiom_vec_index_decreases(*left, i as int);
                        assert(decreases_to!(*self => self->Group_1));
                    }
                    if !left[i].eq(&right[i]) {
                        assert(views(left@)[i as int] != views(right@)[i as int]);
                        return false;
                    }
                    i += 1;
                }
                assert(views(left@) =~= views(right@));
                true
            },
            (Token::Literal(left), Token::Literal(right)) => *left == *right,
            _ => false,
        }
    }
}

impl PartialEqSpecImpl for Token {
    open spec fn obeys_eq_spec() -> bool {
        true
    }

    open spec fn eq_spec(&self, other: &Token) -> bool {
        self@ == other@
    }
}

impl Token {
    /// The textual form of the token, as error messages show it.
    pub fn text(&self) -> (text: String)
        ensures
            text@ == self@.text(),
    {
        match self {
            Token::Ident(name) => name.clone(),
            Token::Punct(ch, _) => {
                let mut text = String::new();
                push_char(&mut text, *ch);
                text
            },
            Token::Group(_, _, text) => text.clone(),
            Token::Literal(value) => value.clone(),
        }
    }
}

/// Whether the token is the reserved placeholder identifier `_`.
pub fn is_trap(token: &Token) -> (trap: bool)
    ensures
        trap == token@.is_trap(),
{
    match token {
        Token::Ident(text) => {
            let placeholder = String::from_str("_");
            proof {
                reveal_strlit("_");
                assert(placeholder@ =~= trap_text());
            }
            *text == placeholder
        },
        _ => false,
    }
}

} // verus!
