use covers::rewrite::{covers, parse_args, reference_tokens, scan_decl, Config, OriginalPrefix};
use covers::token::{Delim, Token};

fn id(s: &str) -> Token {
    Token::Ident(s.to_string())
}

fn punct(c: char) -> Token {
    Token::Punct(c)
}

fn paren(ts: Vec<Token>) -> Token {
    Token::Group(Delim::Parenthesis, ts)
}

fn brace(ts: Vec<Token>) -> Token {
    Token::Group(Delim::Brace, ts)
}

fn bracket(ts: Vec<Token>) -> Token {
    Token::Group(Delim::Bracket, ts)
}

fn cfg_test() -> Vec<Token> {
    vec![punct('#'), bracket(vec![id("cfg"), paren(vec![id("test")])])]
}

fn cfg_not_test() -> Vec<Token> {
    vec![punct('#'), bracket(vec![id("cfg"), paren(vec![id("not"), paren(vec![id("test")])])])]
}

fn dev() -> Config {
    Config { production: false, prefix: OriginalPrefix::Underscore }
}

fn greet_tokens() -> Vec<Token> {
    vec![
        id("fn"),
        id("greet"),
        paren(vec![id("name"), punct(':'), id("String")]),
        punct('-'),
        punct('>'),
        id("String"),
        brace(vec![
            id("format"),
            punct('!'),
            paren(vec![Token::Literal("\"Hi {}\"".to_string()), punct(','), id("name")]),
        ]),
    ]
}

#[test]
fn production_mode_returns_the_input_unmodified() {
    let cfg = Config { production: true, prefix: OriginalPrefix::Underscore };
    let out = covers("mock_greet", greet_tokens(), cfg).unwrap();
    assert_eq!(out, greet_tokens());
}

#[test]
fn production_mode_skips_directive_parsing() {
    let cfg = Config { production: true, prefix: OriginalPrefix::Underscore };
    let out = covers("", greet_tokens(), cfg).unwrap();
    assert_eq!(out, greet_tokens());
}

#[test]
fn malformed_directive_aborts_the_rewrite() {
    assert!(covers("", greet_tokens(), dev()).is_err());
    assert!(covers("foo, scope", greet_tokens(), dev()).is_err());
}

#[test]
fn greet_scenario_emits_renamed_original_and_dispatcher() {
    let out = covers("mock_greet", greet_tokens(), dev()).unwrap();
    let mut expected = vec![
        // the renamed original, forced public, body untouched
        id("pub"),
        id("fn"),
        id("_greet"),
        paren(vec![id("name"), punct(':'), id("String")]),
        punct('-'),
        punct('>'),
        id("String"),
        brace(vec![
            id("format"),
            punct('!'),
            paren(vec![Token::Literal("\"Hi {}\"".to_string()), punct(','), id("name")]),
        ]),
        // the wrapper's header: original name, visibility, signature
        id("fn"),
        id("greet"),
        paren(vec![id("name"), punct(':'), id("String")]),
        punct('-'),
        punct('>'),
        id("String"),
    ];
    let mut body = cfg_test();
    body.extend(vec![id("return"), id("mock_greet"), paren(vec![id("name")]), punct(';')]);
    body.extend(cfg_not_test());
    body.extend(vec![id("return"), id("_greet"), paren(vec![id("name")]), punct(';')]);
    expected.push(brace(body));
    assert_eq!(out, expected);
}

#[test]
fn public_wrapper_keeps_its_visibility_and_no_pub_is_injected() {
    let input = vec![
        id("pub"),
        id("fn"),
        id("greet"),
        paren(vec![id("name"), punct(':'), id("String")]),
        brace(vec![id("name")]),
    ];
    let out = covers("mock_greet", input, dev()).unwrap();
    let mut expected = vec![
        id("pub"),
        id("fn"),
        id("_greet"),
        paren(vec![id("name"), punct(':'), id("String")]),
        brace(vec![id("name")]),
        id("pub"),
        id("fn"),
        id("greet"),
        paren(vec![id("name"), punct(':'), id("String")]),
    ];
    let mut body = cfg_test();
    body.extend(vec![id("return"), id("mock_greet"), paren(vec![id("name")]), punct(';')]);
    body.extend(cfg_not_test());
    body.extend(vec![id("return"), id("_greet"), paren(vec![id("name")]), punct(';')]);
    expected.push(brace(body));
    assert_eq!(out, expected);
}

#[test]
fn self_scoped_scenario_qualifies_the_fallback_call() {
    let input = vec![
        id("fn"),
        id("speak"),
        paren(vec![punct('&'), id("self")]),
        punct('-'),
        punct('>'),
        id("String"),
        brace(vec![id("body")]),
    ];
    let out = covers("mock_speak, scope = impl", input, dev()).unwrap();
    let mut expected = vec![
        id("pub"),
        id("fn"),
        id("_speak"),
        paren(vec![punct('&'), id("self")]),
        punct('-'),
        punct('>'),
        id("String"),
        brace(vec![id("body")]),
        id("fn"),
        id("speak"),
        paren(vec![punct('&'), id("self")]),
        punct('-'),
        punct('>'),
        id("String"),
    ];
    let mut body = cfg_test();
    body.extend(vec![id("return"), id("mock_speak"), paren(vec![id("self")]), punct(';')]);
    body.extend(cfg_not_test());
    body.extend(vec![
        id("return"),
        id("Self"),
        punct(':'),
        punct(':'),
        id("_speak"),
        paren(vec![id("self")]),
        punct(';'),
    ]);
    expected.push(brace(body));
    assert_eq!(out, expected);
}

#[test]
fn scope_impl_qualifies_even_without_self() {
    let input = vec![id("fn"), id("speak"), paren(vec![]), brace(vec![])];
    let out = covers("Chorus::mock_speak, scope = impl", input, dev()).unwrap();
    // the fallback call of the emitted dispatcher is Self::_speak()
    let Some(Token::Group(Delim::Brace, body)) = out.last() else {
        panic!("expected a brace group");
    };
    let expected = vec![
        id("return"),
        id("Self"),
        punct(':'),
        punct(':'),
        id("_speak"),
        paren(vec![]),
        punct(';'),
    ];
    assert_eq!(&body[body.len() - 7..], &expected[..]);
}

#[test]
fn leading_self_alone_triggers_method_scope() {
    let input = vec![id("fn"), id("speak"), paren(vec![id("self")]), brace(vec![])];
    let out = covers("mock_speak", input, dev()).unwrap();
    let Some(Token::Group(Delim::Brace, body)) = out.last() else {
        panic!("expected a brace group");
    };
    let expected = vec![
        id("return"),
        id("Self"),
        punct(':'),
        punct(':'),
        id("_speak"),
        paren(vec![id("self")]),
        punct(';'),
    ];
    assert_eq!(&body[body.len() - 7..], &expected[..]);
}

#[test]
fn qualified_reference_becomes_a_path_call() {
    assert_eq!(
        reference_tokens("lyrics_mocks::let_my_project_growing"),
        vec![id("lyrics_mocks"), punct(':'), punct(':'), id("let_my_project_growing")]
    );
    assert_eq!(reference_tokens("foo"), vec![id("foo")]);
    assert_eq!(reference_tokens(""), Vec::<Token>::new());
}

#[test]
fn forwarding_names_drop_types_and_keep_order() {
    let content = vec![
        id("a"),
        punct(':'),
        id("u64"),
        punct(','),
        id("b"),
        punct(':'),
        punct('&'),
        id("str"),
    ];
    assert_eq!(parse_args(&content), vec![id("a"), id("b")]);
}

#[test]
fn forwarding_recognizes_self_variants() {
    assert_eq!(parse_args(&vec![punct('&'), id("self")]), vec![id("self")]);
    assert_eq!(parse_args(&vec![id("mut"), id("self")]), vec![id("self")]);
    assert_eq!(
        parse_args(&vec![punct('&'), id("mut"), id("self"), punct(','), id("x"), punct(':'), id("T")]),
        vec![id("self"), id("x")]
    );
}

#[test]
fn forwarding_handles_empty_list_and_trailing_comma() {
    assert_eq!(parse_args(&vec![]), Vec::<Token>::new());
    assert_eq!(parse_args(&vec![id("a"), punct(',')]), vec![id("a")]);
}

#[test]
fn longer_prefixes_rename_accordingly() {
    let cfg = Config { production: false, prefix: OriginalPrefix::OrigUnderscore };
    let out = covers("mock_greet", greet_tokens(), cfg).unwrap();
    assert_eq!(out[2], id("_orig_greet"));
    let cfg = Config { production: false, prefix: OriginalPrefix::DoubleUnderscore };
    let out = covers("mock_greet", greet_tokens(), cfg).unwrap();
    assert_eq!(out[2], id("__greet"));
}

#[test]
fn scan_splits_header_from_body() {
    let s = scan_decl(&greet_tokens(), "_");
    assert_eq!(s.renamed, "_greet");
    assert_eq!(
        s.sig,
        vec![
            id("fn"),
            id("greet"),
            paren(vec![id("name"), punct(':'), id("String")]),
            punct('-'),
            punct('>'),
            id("String"),
        ]
    );
    assert_eq!(s.args, vec![id("name")]);
}

#[test]
fn tokens_after_the_body_go_only_to_the_original() {
    let input = vec![id("fn"), id("f"), paren(vec![]), brace(vec![]), id("trailing")];
    let s = scan_decl(&input, "_");
    assert_eq!(s.sig, vec![id("fn"), id("f"), paren(vec![])]);
    assert_eq!(
        s.orig,
        vec![id("pub"), id("fn"), id("_f"), paren(vec![]), brace(vec![]), id("trailing")]
    );
}
