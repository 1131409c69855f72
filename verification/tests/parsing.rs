use bidi::conversion::{compile, prefix};
use bidi::error::Error;
use bidi::model::{Definition, Rule};
use bidi::rules_parser;
use bidi::rules_parser::Op;
use bidi::stream::bidi_impl;
use bidi::token::{is_trap, Delimiter, Spacing, Token};
use bidi::type_parser;
use bidi::type_parser::{vec_with, TypeNameState};
use proc_macro2::TokenStream;
use std::str::FromStr;

fn ident(text: &str) -> Token {
    Token::Ident(text.to_string())
}

fn alone(ch: char) -> Token {
    Token::Punct(ch, Spacing::Alone)
}

fn joint(ch: char) -> Token {
    Token::Punct(ch, Spacing::Joint)
}

fn group(delimiter: Delimiter, inner: Vec<Token>, text: &str) -> Token {
    Token::Group(delimiter, inner, text.to_string())
}

fn braces(inner: Vec<Token>, text: &str) -> Token {
    group(Delimiter::Brace, inner, text)
}

fn message<T: std::fmt::Debug>(result: Result<T, Error>) -> String {
    result.unwrap_err().message
}

fn stream(source: &str) -> TokenStream {
    TokenStream::from_str(source).unwrap()
}

fn header(rules: Vec<Token>) -> Vec<Token> {
    vec![
        ident("Name"),
        alone('<'),
        ident("A"),
        alone(','),
        ident("B"),
        alone('>'),
        braces(rules, "{ rules }"),
    ]
}

#[test]
fn error_new_keeps_the_message() {
    assert_eq!(Error::new("no good").message, "no good");
    assert_eq!(Error::new("").message, "");
}

#[test]
fn error_messages() {
    assert_eq!(Error::unexpected_token(&ident("A1")).message, "Unexpected token A1");
    assert_eq!(Error::unexpected_token(&alone('>')).message, "Unexpected token >");
    assert_eq!(
        Error::unexpected_token(&braces(vec![ident("x")], "{ x }")).message,
        "Unexpected token { x }"
    );
    assert_eq!(Error::misplaced_trap().message, "Misplaced trap identifier _");
    assert_eq!(Error::end_of_rules().message, "Unexpected end of rules block in bidi!");
    assert_eq!(Error::end_of_header().message, "Parse error at end of bidi!");
}

#[test]
fn token_text_of_each_kind() {
    assert_eq!(ident("A1").text(), "A1");
    assert_eq!(joint(':').text(), ":");
    assert_eq!(alone('>').text(), ">");
    assert_eq!(Token::Literal("\"x\"".to_string()).text(), "\"x\"");
    assert_eq!(group(Delimiter::Parenthesis, vec![], "()").text(), "()");
    assert_eq!(braces(vec![ident("a")], "{ a }").text(), "{ a }");
}

#[test]
fn a_group_shows_as_its_source_printed_it() {
    assert_eq!(
        message(bidi_impl(stream("Name<A, B> { A1 == {A1 == B1, [x y]} }"))),
        "Unexpected token { A1 == B1 , [x y] }"
    );
    assert_eq!(message(bidi_impl(stream("Name<A, B> { A1 == {} }"))), "Unexpected token { }");
    assert_eq!(message(bidi_impl(stream("Name<A, B> { A1 == () }"))), "Unexpected token ()");
    assert_eq!(message(bidi_impl(stream("Name<A, B> { A1 == {A} }"))), "Unexpected token { A }");
}

#[test]
fn token_equality_and_copy() {
    let inner = braces(vec![ident("x")], "{ x }");
    let whole = braces(vec![ident("A1"), joint('='), inner], "{ A1 = { x } }");
    assert_eq!(whole.clone(), whole);
    assert_ne!(
        whole,
        braces(
            vec![ident("A1"), joint('='), braces(vec![ident("y")], "{ x }")],
            "{ A1 = { x } }"
        )
    );
    assert_ne!(whole, braces(vec![ident("A1"), joint('=')], "{ A1 = { x } }"));
    assert_ne!(braces(vec![], "{ }"), braces(vec![], "{}"));
    assert_ne!(joint('='), alone('='));
    assert_ne!(ident("a"), Token::Literal("a".to_string()));
    assert_ne!(braces(vec![], ""), group(Delimiter::Bracket, vec![], ""));
}

#[test]
fn trap_is_the_underscore_identifier_only() {
    assert!(is_trap(&ident("_")));
    assert!(!is_trap(&ident("__")));
    assert!(!is_trap(&ident("A1")));
    assert!(!is_trap(&alone('_')));
    assert!(!is_trap(&Token::Literal("_".to_string())));
}

#[test]
fn vec_with_appends_a_copy() {
    assert_eq!(vec_with(&vec![1, 2], &3), vec![1, 2, 3]);
    assert_eq!(vec_with(&Vec::<u8>::new(), &7), vec![7]);
    assert_eq!(vec_with(&vec![ident("a")], &joint(':')), vec![ident("a"), joint(':')]);
}

#[test]
fn rules_with_each_operator() {
    let tokens = vec![
        ident("A1"), joint('='), alone('='), ident("B1"), alone(','),
        ident("A2"), joint('='), alone('>'), ident("B2"), alone(','),
        ident("A3"), joint('<'), alone('='), ident("B3"), alone(','),
        ident("A4"), joint('='), alone('>'), ident("_"), alone(','),
        ident("_"), joint('<'), alone('='), ident("B5"),
    ];
    assert_eq!(
        rules_parser::parse(tokens).unwrap(),
        vec![
            Rule::Equivalence(ident("A1"), ident("B1")),
            Rule::ProjectionToExternal(ident("A2"), ident("B2")),
            Rule::ProjectionToInternal(ident("A3"), ident("B3")),
            Rule::OrphanInternal(ident("A4")),
            Rule::OrphanExternal(ident("B5")),
        ]
    );
}

#[test]
fn rules_with_single_marker_operators() {
    let tokens = vec![
        ident("A1"), alone('='), ident("B1"), alone(','),
        ident("A2"), alone('>'), ident("B2"), alone(','),
        ident("A3"), alone('<'), ident("B3"),
    ];
    assert_eq!(
        rules_parser::parse(tokens).unwrap(),
        vec![
            Rule::Equivalence(ident("A1"), ident("B1")),
            Rule::ProjectionToExternal(ident("A2"), ident("B2")),
            Rule::ProjectionToInternal(ident("A3"), ident("B3")),
        ]
    );
}

#[test]
fn empty_rule_block_and_trailing_comma() {
    assert_eq!(rules_parser::parse(vec![]).unwrap(), vec![]);
    let tokens = vec![ident("A1"), joint('='), alone('='), ident("B1"), alone(',')];
    assert_eq!(
        rules_parser::parse(tokens).unwrap(),
        vec![Rule::Equivalence(ident("A1"), ident("B1"))]
    );
}

#[test]
fn rule_steps_follow_the_states() {
    let state = rules_parser::State::StartOfRule(vec![]);
    let state = rules_parser::next_step(state, ident("A1")).unwrap();
    assert!(matches!(&state, rules_parser::State::Internal(data, value)
        if data.is_empty() && *value == ident("A1")));
    let state = rules_parser::next_step(state, joint('=')).unwrap();
    assert!(matches!(&state, rules_parser::State::Operator(_, value, Op::Eq)
        if *value == ident("A1")));
    let state = rules_parser::next_step(state, alone('>')).unwrap();
    assert!(matches!(&state, rules_parser::State::OperatorEnd(_, value, Op::Gt)
        if *value == ident("A1")));
    let state = rules_parser::next_step(state, ident("B1")).unwrap();
    assert!(matches!(&state, rules_parser::State::EndOfRule(data)
        if *data == vec![Rule::ProjectionToExternal(ident("A1"), ident("B1"))]));
    let state = rules_parser::next_step(state, alone(',')).unwrap();
    assert!(matches!(&state, rules_parser::State::StartOfRule(data) if data.len() == 1));
}

#[test]
fn both_markers_together_are_a_grammar_error() {
    let tokens = vec![ident("A1"), joint('<'), alone('>'), ident("B1")];
    assert_eq!(message(rules_parser::parse(tokens)), "Unexpected token >");
    let tokens = vec![ident("A1"), joint('>'), alone('<'), ident("B1")];
    assert_eq!(message(rules_parser::parse(tokens)), "Unexpected token <");
    let whole = stream("Name<A, B> { A1 == B1, A1 <> B1 }");
    assert_eq!(message(bidi_impl(whole)), "Unexpected token >");
    let state = rules_parser::State::Operator(vec![], ident("A1"), Op::Lt);
    assert_eq!(message(rules_parser::next_step(state, alone('>'))), "Unexpected token >");
}

#[test]
fn no_other_pair_of_characters_is_an_operator() {
    let cases = vec![
        ('>', '=', "Unexpected token ="),
        ('=', '<', "Unexpected token <"),
        ('<', '<', "Unexpected token <"),
        ('>', '>', "Unexpected token >"),
        ('<', '>', "Unexpected token >"),
        ('>', '<', "Unexpected token <"),
        ('=', '+', "Unexpected token +"),
        ('=', ',', "Unexpected token ,"),
    ];
    for (first, second, expected) in cases {
        let tokens = vec![ident("A1"), joint(first), alone(second), ident("B1")];
        assert_eq!(message(rules_parser::parse(tokens)), expected);
    }
}

#[test]
fn an_operator_has_no_third_character() {
    let cases = vec![('=', '=', '='), ('=', '=', '>'), ('<', '=', '='), ('=', '>', '=')];
    for (first, second, third) in cases {
        let tokens = vec![ident("A1"), joint(first), joint(second), alone(third), ident("B1")];
        assert_eq!(
            message(rules_parser::parse(tokens)),
            format!("Unexpected token {}", third)
        );
    }
    assert_eq!(message(bidi_impl(stream("Name<A, B> { A1 === B1 }"))), "Unexpected token =");
    assert_eq!(message(bidi_impl(stream("Name<A, B> { A1 >= B1 }"))), "Unexpected token =");
}

#[test]
fn trap_on_the_left_of_an_equivalence_fails() {
    let tokens = vec![ident("_"), joint('='), alone('='), ident("B1")];
    assert_eq!(message(rules_parser::parse(tokens)), "Misplaced trap identifier _");
    let whole = stream("Name<A, B> { _  == B1 }");
    assert_eq!(message(bidi_impl(whole)), "Misplaced trap identifier _");
}

#[test]
fn trap_where_the_relation_does_not_allow_it_fails() {
    let cases = vec![
        vec![ident("A1"), joint('='), alone('='), ident("_")],
        vec![ident("_"), joint('='), alone('>'), ident("B1")],
        vec![ident("A1"), joint('<'), alone('='), ident("_")],
        vec![ident("_"), joint('='), alone('>'), ident("_")],
        vec![ident("_"), joint('<'), alone('='), ident("_")],
        vec![ident("_"), joint('='), alone('='), ident("_")],
    ];
    for tokens in cases {
        assert_eq!(message(rules_parser::parse(tokens)), "Misplaced trap identifier _");
    }
}

#[test]
fn unexpected_tokens_in_a_rule_block() {
    assert_eq!(message(rules_parser::parse(vec![alone(',')])), "Unexpected token ,");
    assert_eq!(
        message(rules_parser::parse(vec![ident("A1"), ident("B1")])),
        "Unexpected token B1"
    );
    assert_eq!(
        message(rules_parser::parse(vec![ident("A1"), alone('+')])),
        "Unexpected token +"
    );
    assert_eq!(
        message(rules_parser::parse(vec![ident("A1"), alone('='), alone('+')])),
        "Unexpected token +"
    );
    assert_eq!(
        message(rules_parser::parse(vec![
            ident("A1"),
            alone('='),
            braces(vec![ident("x")], "{ x }")
        ])),
        "Unexpected token { x }"
    );
    assert_eq!(
        message(rules_parser::parse(vec![ident("A1"), alone('='), ident("B1"), ident("A2")])),
        "Unexpected token A2"
    );
    assert_eq!(
        message(rules_parser::parse(vec![ident("A1"), alone('='), ident("B1"), alone(';')])),
        "Unexpected token ;"
    );
}

#[test]
fn the_first_error_is_the_one_reported() {
    let tokens = vec![ident("A1"), alone('+'), ident("_"), alone('<'), alone('>')];
    assert_eq!(message(rules_parser::parse(tokens)), "Unexpected token +");
}

#[test]
fn rule_block_that_ends_inside_a_rule() {
    assert_eq!(
        message(rules_parser::parse(vec![ident("A1")])),
        "Unexpected end of rules block in bidi!"
    );
    assert_eq!(
        message(rules_parser::parse(vec![ident("A1"), joint('='), alone('=')])),
        "Unexpected end of rules block in bidi!"
    );
}

#[test]
fn qualified_name_steps() {
    let state = TypeNameState::Init.next_step(&ident("a")).unwrap();
    assert!(matches!(&state, TypeNameState::Ready(name) if *name == vec![ident("a")]));
    let state = state.next_step(&joint(':')).unwrap();
    assert!(matches!(&state, TypeNameState::C1(name) if name.len() == 2));
    let state = state.next_step(&alone(':')).unwrap();
    assert!(matches!(&state, TypeNameState::C2(name) if name.len() == 3));
    let state = state.next_step(&ident("B")).unwrap();
    assert_eq!(
        state.extract(&alone(',')).unwrap(),
        vec![ident("a"), joint(':'), alone(':'), ident("B")]
    );
}

#[test]
fn qualified_name_may_not_start_with_a_separator() {
    assert_eq!(message(TypeNameState::Init.next_step(&joint(':'))), "Unexpected token :");
    assert_eq!(message(bidi_impl(stream("Name<::A, B> {}"))), "Unexpected token :");
    assert_eq!(message(bidi_impl(stream("Name<A, ::y::B> {}"))), "Unexpected token :");
}

#[test]
fn qualified_name_errors() {
    assert_eq!(message(TypeNameState::Init.next_step(&alone(':'))), "Unexpected token :");
    assert_eq!(message(TypeNameState::Init.next_step(&alone('<'))), "Unexpected token <");
    assert_eq!(message(TypeNameState::Init.extract(&alone(','))), "Unexpected token ,");
    let ready = TypeNameState::Init.next_step(&ident("a")).unwrap();
    assert_eq!(message(ready.next_step(&ident("b"))), "Unexpected token b");
    assert_eq!(message(ready.next_step(&alone(':'))), "Unexpected token :");
    let colon = ready.next_step(&joint(':')).unwrap();
    assert_eq!(message(colon.next_step(&ident("b"))), "Unexpected token b");
    assert_eq!(message(colon.extract(&alone('>'))), "Unexpected token >");
    let colons = colon.next_step(&joint(':')).unwrap();
    assert_eq!(message(colons.next_step(&alone(':'))), "Unexpected token :");
    assert_eq!(message(colons.extract(&alone(','))), "Unexpected token ,");
}

#[test]
fn header_with_plain_type_names() {
    let rules = vec![ident("A1"), joint('='), alone('='), ident("B1")];
    assert_eq!(
        type_parser::parse(header(rules)).unwrap(),
        Definition {
            for_tests: false,
            name: ident("Name"),
            internal_type: vec![ident("A")],
            external_type: vec![ident("B")],
            rules: vec![Rule::Equivalence(ident("A1"), ident("B1"))],
        }
    );
}

#[test]
fn header_with_star_and_scoped_names() {
    let definition = bidi_impl(stream("* Name<x::A, y::z::B> { }")).unwrap().definition;
    assert_eq!(
        definition,
        Definition {
            for_tests: true,
            name: ident("Name"),
            internal_type: vec![ident("x"), joint(':'), alone(':'), ident("A")],
            external_type: vec![
                ident("y"), joint(':'), alone(':'), ident("z"), joint(':'), alone(':'), ident("B"),
            ],
            rules: vec![],
        }
    );
}

#[test]
fn header_errors() {
    assert_eq!(message(bidi_impl(stream("* * Name<A, B> {}"))), "Unexpected token *");
    assert_eq!(message(bidi_impl(stream("<A, B> {}"))), "Unexpected token <");
    assert_eq!(message(bidi_impl(stream("Name Other<A, B> {}"))), "Unexpected token Other");
    assert_eq!(message(bidi_impl(stream("Name<, B> {}"))), "Unexpected token ,");
    assert_eq!(message(bidi_impl(stream("Name<A B> {}"))), "Unexpected token B");
    assert_eq!(message(bidi_impl(stream("Name<A, > {}"))), "Unexpected token >");
    assert_eq!(message(bidi_impl(stream("Name<A, B::> {}"))), "Unexpected token >");
    assert_eq!(message(bidi_impl(stream("Name<A, B, C> {}"))), "Unexpected token ,");
    assert_eq!(message(bidi_impl(stream("Name<A, B> (A1 == B1)"))), "Unexpected token (A1 == B1)");
    assert_eq!(message(bidi_impl(stream("Name<A, B> {} {}"))), "Unexpected token { }");
    assert_eq!(message(bidi_impl(stream("Name<A, B> { A1 == }"))),
        "Unexpected end of rules block in bidi!");
    assert_eq!(message(bidi_impl(stream("Name<A, B> { A1 == 1 }"))), "Unexpected token 1");
}

#[test]
fn header_that_ends_early() {
    for source in ["", "*", "Name", "Name<", "Name<A", "Name<A,", "Name<A, B", "Name<A, B>"] {
        assert_eq!(message(bidi_impl(stream(source))), "Parse error at end of bidi!");
    }
}

#[test]
fn header_steps_follow_the_states() {
    let state = type_parser::State::Init(false);
    let state = type_parser::next_step(state, alone('*')).unwrap();
    assert!(matches!(&state, type_parser::State::Init(true)));
    let state = type_parser::next_step(state, ident("Name")).unwrap();
    assert!(matches!(&state, type_parser::State::Named(true, name) if *name == ident("Name")));
    let state = type_parser::next_step(state, alone('<')).unwrap();
    assert!(matches!(&state, type_parser::State::ReadingInternal(true, _, TypeNameState::Init)));
    let state = type_parser::next_step(state, ident("A")).unwrap();
    let state = type_parser::next_step(state, alone(',')).unwrap();
    assert!(matches!(&state, type_parser::State::ReadingExternal(true, _, internal, _)
        if *internal == vec![ident("A")]));
    let state = type_parser::next_step(state, ident("B")).unwrap();
    let state = type_parser::next_step(state, alone('>')).unwrap();
    assert!(matches!(&state, type_parser::State::Specified(true, _, _, external)
        if *external == vec![ident("B")]));
    let state = type_parser::next_step(state, braces(vec![], "{ }")).unwrap();
    assert!(matches!(&state, type_parser::State::Done(definition) if definition.rules.is_empty()));
    assert_eq!(message(type_parser::next_step(state, ident("x"))), "Unexpected token x");
}

#[test]
fn a_stream_gives_what_its_tokens_give() {
    let source = "* Name<x::A, B> { A1 == B1, A2 => B2, A3 <= B3, A4 => _, _ <= B5, }";
    let tokens = vec![
        alone('*'), ident("Name"), alone('<'),
        ident("x"), joint(':'), alone(':'), ident("A"), alone(','), ident("B"), alone('>'),
        braces(
            vec![
                ident("A1"), joint('='), alone('='), ident("B1"), alone(','),
                ident("A2"), joint('='), alone('>'), ident("B2"), alone(','),
                ident("A3"), joint('<'), alone('='), ident("B3"), alone(','),
                ident("A4"), joint('='), alone('>'), ident("_"), alone(','),
                ident("_"), joint('<'), alone('='), ident("B5"), alone(','),
            ],
            "{ A1 == B1 , A2 => B2 , A3 <= B3 , A4 => _ , _ <= B5 , }",
        ),
    ];
    assert_eq!(bidi_impl(stream(source)), compile(tokens));
}

#[test]
fn a_stream_keeps_groups_and_literals() {
    assert_eq!(
        message(bidi_impl(stream("Name<A, B> { A1 == [x, (1 + 'c')] }"))),
        "Unexpected token [x , (1 + 'c')]"
    );
}

#[test]
fn prefix_is_local_for_tests_and_published_otherwise() {
    let local = bidi_impl(stream("* Name<A, B> {}")).unwrap().definition;
    assert_eq!(prefix(&local), vec![ident("crate")]);
    let published = bidi_impl(stream("Name<A, B> {}")).unwrap().definition;
    assert_eq!(prefix(&published), vec![joint(':'), alone(':'), ident("bidi")]);
}

#[test]
fn a_written_specification_reads_back() {
    let definition = Definition {
        for_tests: true,
        name: ident("Name"),
        internal_type: vec![ident("x"), joint(':'), alone(':'), ident("A")],
        external_type: vec![ident("B")],
        rules: vec![
            Rule::Equivalence(ident("A1"), ident("B1")),
            Rule::ProjectionToExternal(ident("A2"), ident("B2")),
            Rule::ProjectionToInternal(ident("A3"), ident("B3")),
            Rule::OrphanInternal(ident("A4")),
            Rule::OrphanExternal(ident("B5")),
        ],
    };
    let written = vec![
        alone('*'), ident("Name"), alone('<'),
        ident("x"), joint(':'), alone(':'), ident("A"),
        alone(','), ident("B"), alone('>'),
        braces(
            vec![
                ident("A1"), joint('='), alone('='), ident("B1"), alone(','),
                ident("A2"), joint('='), alone('>'), ident("B2"), alone(','),
                ident("A3"), joint('<'), alone('='), ident("B3"), alone(','),
                ident("A4"), joint('='), alone('>'), ident("_"), alone(','),
                ident("_"), joint('<'), alone('='), ident("B5"), alone(','),
            ],
            "{ the rules }",
        ),
    ];
    assert_eq!(type_parser::parse(written).unwrap(), definition);
}

#[test]
fn parsed_rules_never_hold_the_placeholder() {
    let conversion = bidi_impl(stream("Name<A, B> { A1 => _, _ <= B1, A2 == B2 }")).unwrap();
    for rule in conversion.definition.rules.iter().chain(conversion.mirror.rules.iter()) {
        let values = match rule {
            Rule::Equivalence(internal, external) => vec![internal, external],
            Rule::ProjectionToInternal(internal, external) => vec![internal, external],
            Rule::ProjectionToExternal(internal, external) => vec![internal, external],
            Rule::OrphanInternal(internal) => vec![internal],
            Rule::OrphanExternal(external) => vec![external],
        };
        for value in values {
            assert!(matches!(value, Token::Ident(_)));
            assert!(!is_trap(value));
        }
    }
}
