use minimal_compiler::lexer::{
    apply_rule, classify_lexeme, literal_token, next_lexeme, regex_resolver, split_match,
    token_resolver, token_vec, tokenize, try_rule, LexError, Token,
};

#[test]
fn test_tokenize() {
    let input = "int main(void) { return 2; }";
    let tokens = tokenize(input);
    let expected_tokens = vec![
        Token::KEYWORD,
        Token::IDENTIFIER,
        Token::OPENPARENTHESIS,
        Token::KEYWORD,
        Token::CLOSEPARENTHESIS,
        Token::OPENBRACE,
        Token::KEYWORD,
        Token::CONSTANT,
        Token::SEMICOLON,
        Token::CLOSEBRACE,
    ];
    assert_eq!(tokens, Ok(expected_tokens));
}

#[test]
fn test_token_resolver() {
    assert_eq!(token_resolver("int"), Ok(Token::KEYWORD));
    assert_eq!(token_resolver("main"), Ok(Token::IDENTIFIER));
    assert_eq!(token_resolver("("), Ok(Token::OPENPARENTHESIS));
    assert_eq!(token_resolver(")"), Ok(Token::CLOSEPARENTHESIS));
    assert_eq!(token_resolver("{"), Ok(Token::OPENBRACE));
    assert_eq!(token_resolver("2"), Ok(Token::CONSTANT));
    assert_eq!(token_resolver(";"), Ok(Token::SEMICOLON));
    assert_eq!(token_resolver("}"), Ok(Token::CLOSEBRACE));
}

#[test]
fn test_fail_identifier() {
    let input = "int 123main(void) { return 2; }";
    let result = tokenize(input);
    assert!(result.is_err());
    assert_eq!(
        result,
        Err(LexError::UnknownLexeme(String::from("123main(void) { return 2; }")))
    );
}

#[test]
fn test_mix_up_identifier_and_keyword() {
    let input = "int intmain(void) { return 2; }";
    let tokens = tokenize(input);
    let expected_tokens = vec![
        Token::KEYWORD,
        Token::IDENTIFIER,
        Token::OPENPARENTHESIS,
        Token::KEYWORD,
        Token::CLOSEPARENTHESIS,
        Token::OPENBRACE,
        Token::KEYWORD,
        Token::CONSTANT,
        Token::SEMICOLON,
        Token::CLOSEBRACE,
    ];
    assert_eq!(tokens, Ok(expected_tokens));
}

#[test]
fn keyword_alone() {
    assert_eq!(tokenize("int"), Ok(vec![Token::KEYWORD]));
    assert_eq!(tokenize("void"), Ok(vec![Token::KEYWORD]));
    assert_eq!(tokenize("return"), Ok(vec![Token::KEYWORD]));
}

#[test]
fn keyword_prefix_of_identifier_is_not_split() {
    assert_eq!(tokenize("intmain"), Ok(vec![Token::IDENTIFIER]));
    assert_eq!(tokenize("returned"), Ok(vec![Token::IDENTIFIER]));
    assert_eq!(tokenize("void_"), Ok(vec![Token::IDENTIFIER]));
    assert_eq!(tokenize("int2"), Ok(vec![Token::IDENTIFIER]));
}

#[test]
fn keyword_then_identifier() {
    assert_eq!(
        tokenize("int intmain"),
        Ok(vec![Token::KEYWORD, Token::IDENTIFIER])
    );
}

#[test]
fn empty_input_has_no_tokens() {
    assert_eq!(tokenize(""), Ok(vec![]));
}

#[test]
fn blank_input_has_no_tokens() {
    assert_eq!(tokenize("   \n\t "), Ok(vec![]));
    assert_eq!(tokenize(" "), Ok(vec![]));
    assert_eq!(tokenize("\n"), Ok(vec![]));
}

#[test]
fn blanks_around_lexemes_are_skipped() {
    let expected = vec![Token::KEYWORD, Token::CONSTANT, Token::SEMICOLON];
    assert_eq!(tokenize("return 2;"), Ok(expected.clone()));
    assert_eq!(tokenize("  return\t2\n;\n"), Ok(expected.clone()));
    assert_eq!(tokenize("\n\n return   2 ;"), Ok(expected));
}

#[test]
fn punctuation_needs_no_blanks() {
    assert_eq!(
        tokenize("(){};"),
        Ok(vec![
            Token::OPENPARENTHESIS,
            Token::CLOSEPARENTHESIS,
            Token::OPENBRACE,
            Token::CLOSEBRACE,
            Token::SEMICOLON,
        ])
    );
    assert_eq!(
        tokenize("main(42)"),
        Ok(vec![
            Token::IDENTIFIER,
            Token::OPENPARENTHESIS,
            Token::CONSTANT,
            Token::CLOSEPARENTHESIS,
        ])
    );
}

#[test]
fn one_token_for_each_lexeme() {
    let input = "int main ( void ) { return 2 ; }";
    let tokens = tokenize(input).unwrap();
    assert_eq!(tokens.len(), 10);
    let dense = tokenize("int main(void){return 2;}").unwrap();
    assert_eq!(dense, tokens);
}

#[test]
fn tokenize_twice_gives_the_same() {
    let input = "int main(void) { return 2; }";
    assert_eq!(tokenize(input), tokenize(input));
    let bad = "int 123main";
    assert_eq!(tokenize(bad), tokenize(bad));
}

#[test]
fn constants_are_decimal_digits() {
    assert_eq!(tokenize("0"), Ok(vec![Token::CONSTANT]));
    assert_eq!(tokenize("0123456789"), Ok(vec![Token::CONSTANT]));
    assert_eq!(
        tokenize("-1"),
        Err(LexError::UnknownLexeme(String::from("-1")))
    );
}

#[test]
fn unknown_lexeme_carries_the_rest() {
    assert_eq!(
        tokenize("return 2 + 3;"),
        Err(LexError::UnknownLexeme(String::from("+ 3;")))
    );
    assert_eq!(
        tokenize("int x = 1;"),
        Err(LexError::UnknownLexeme(String::from("= 1;")))
    );
}

#[test]
fn digits_followed_by_letters_fail() {
    assert_eq!(
        tokenize("123main"),
        Err(LexError::UnknownLexeme(String::from("123main")))
    );
    assert_eq!(
        tokenize("1 2a"),
        Err(LexError::UnknownLexeme(String::from("2a")))
    );
}

#[test]
fn carriage_return_is_no_blank() {
    assert_eq!(
        tokenize("int\r\nmain"),
        Err(LexError::UnknownLexeme(String::from("\r\nmain")))
    );
}

#[test]
fn text_outside_ascii_fails() {
    assert_eq!(
        tokenize("int \u{e9}"),
        Err(LexError::UnknownLexeme(String::from("\u{e9}")))
    );
    assert_eq!(
        tokenize("int\u{e9}"),
        Err(LexError::UnknownLexeme(String::from("int\u{e9}")))
    );
}

#[test]
fn resolver_rejects_what_is_no_lexeme() {
    assert_eq!(
        token_resolver("+"),
        Err(LexError::UnresolvedLexeme(String::from("+")))
    );
    assert_eq!(
        token_resolver(""),
        Err(LexError::UnresolvedLexeme(String::from("")))
    );
    assert_eq!(
        token_resolver("2a"),
        Err(LexError::UnresolvedLexeme(String::from("2a")))
    );
    assert_eq!(
        token_resolver("int main"),
        Err(LexError::UnresolvedLexeme(String::from("int main")))
    );
}

#[test]
fn resolver_prefers_keywords() {
    assert_eq!(token_resolver("void"), Ok(Token::KEYWORD));
    assert_eq!(token_resolver("return"), Ok(Token::KEYWORD));
    assert_eq!(token_resolver("Return"), Ok(Token::IDENTIFIER));
    assert_eq!(token_resolver("_"), Ok(Token::IDENTIFIER));
    assert_eq!(token_resolver("x1"), Ok(Token::IDENTIFIER));
    assert_eq!(token_resolver("007"), Ok(Token::CONSTANT));
}

#[test]
fn literal_token_knows_keywords_and_punctuation() {
    assert_eq!(literal_token("int"), Some(Token::KEYWORD));
    assert_eq!(literal_token("void"), Some(Token::KEYWORD));
    assert_eq!(literal_token("return"), Some(Token::KEYWORD));
    assert_eq!(literal_token("("), Some(Token::OPENPARENTHESIS));
    assert_eq!(literal_token(")"), Some(Token::CLOSEPARENTHESIS));
    assert_eq!(literal_token("{"), Some(Token::OPENBRACE));
    assert_eq!(literal_token("}"), Some(Token::CLOSEBRACE));
    assert_eq!(literal_token(";"), Some(Token::SEMICOLON));
    assert_eq!(literal_token("main"), None);
    assert_eq!(literal_token("2"), None);
    assert_eq!(literal_token(""), None);
    assert_eq!(literal_token("in"), None);
    assert_eq!(literal_token("int "), None);
}

#[test]
fn classify_lexeme_orders_the_shapes() {
    assert_eq!(classify_lexeme("int", true, false), Some(Token::KEYWORD));
    assert_eq!(classify_lexeme("int", false, false), Some(Token::KEYWORD));
    assert_eq!(classify_lexeme(";", false, true), Some(Token::SEMICOLON));
    assert_eq!(classify_lexeme("main", true, false), Some(Token::IDENTIFIER));
    assert_eq!(classify_lexeme("main", true, true), Some(Token::IDENTIFIER));
    assert_eq!(classify_lexeme("2", false, true), Some(Token::CONSTANT));
    assert_eq!(classify_lexeme("+", false, false), None);
}

#[test]
fn token_vec_is_the_priority_order() {
    assert_eq!(
        token_vec(),
        vec![
            Token::KEYWORD,
            Token::IDENTIFIER,
            Token::OPENPARENTHESIS,
            Token::CLOSEPARENTHESIS,
            Token::OPENBRACE,
            Token::CONSTANT,
            Token::SEMICOLON,
            Token::CLOSEBRACE,
        ]
    );
}

#[test]
fn regex_resolver_gives_each_rule() {
    assert_eq!(regex_resolver(&Token::KEYWORD), r"^(int|void|return)\b");
    assert_eq!(regex_resolver(&Token::IDENTIFIER), r"^[a-zA-Z_][a-zA-Z0-9_]*\b");
    assert_eq!(regex_resolver(&Token::OPENPARENTHESIS), r"^\(");
    assert_eq!(regex_resolver(&Token::CLOSEPARENTHESIS), r"^\)");
    assert_eq!(regex_resolver(&Token::OPENBRACE), r"^\{");
    assert_eq!(regex_resolver(&Token::CONSTANT), r"^[0-9]+\b");
    assert_eq!(regex_resolver(&Token::SEMICOLON), r"^;");
    assert_eq!(regex_resolver(&Token::CLOSEBRACE), r"^\}");
}

#[test]
fn split_match_takes_a_prefix_only() {
    assert_eq!(split_match("int main", Some((0, 3))), Some(("int", " main")));
    assert_eq!(split_match("int", Some((0, 3))), Some(("int", "")));
    assert_eq!(split_match("int main", None), None);
    assert_eq!(split_match("int main", Some((0, 0))), None);
    assert_eq!(split_match("int main", Some((4, 8))), None);
    assert_eq!(split_match("int", Some((0, 4))), None);
    assert_eq!(split_match("\u{e9}t", Some((0, 1))), None);
    assert_eq!(split_match("\u{e9}t", Some((0, 2))), Some(("\u{e9}", "t")));
}

#[test]
fn next_lexeme_cuts_at_the_word_boundary() {
    assert_eq!(next_lexeme("intmain(void)"), Ok(Some(("intmain", "(void)"))));
    assert_eq!(next_lexeme("int main"), Ok(Some(("int", " main"))));
    assert_eq!(next_lexeme("42;"), Ok(Some(("42", ";"))));
    assert_eq!(next_lexeme("} "), Ok(Some(("}", " "))));
    assert_eq!(next_lexeme(" int"), Ok(None));
    assert_eq!(next_lexeme("42x"), Ok(None));
    assert_eq!(next_lexeme(""), Ok(None));
}

#[test]
fn apply_rule_cuts_off_what_the_pattern_finds() {
    assert_eq!(apply_rule("^a+", "aab"), Ok(Some(("aa", "b"))));
    assert_eq!(apply_rule("^a+", "baa"), Ok(None));
    assert_eq!(apply_rule(r"^\(", "(x)"), Ok(Some(("(", "x)"))));
}

#[test]
fn apply_rule_takes_no_match_behind_the_start() {
    assert_eq!(apply_rule("a+", "baa"), Ok(None));
    assert_eq!(apply_rule("b", "ab"), Ok(None));
}

#[test]
fn apply_rule_takes_no_empty_match() {
    assert_eq!(apply_rule("^a*", "bbb"), Ok(None));
    assert_eq!(apply_rule("^", "abc"), Ok(None));
    assert_eq!(apply_rule("", ""), Ok(None));
}

#[test]
fn apply_rule_reports_a_refused_pattern() {
    assert_eq!(
        apply_rule("(", "(x)"),
        Err(LexError::InvalidRule(String::from("(")))
    );
    assert_eq!(
        apply_rule("[a-", "abc"),
        Err(LexError::InvalidRule(String::from("[a-")))
    );
}

#[test]
fn try_rule_tries_one_category() {
    assert_eq!(try_rule(&Token::KEYWORD, "int main"), Ok(Some(("int", " main"))));
    assert_eq!(try_rule(&Token::KEYWORD, "intmain"), Ok(None));
    assert_eq!(try_rule(&Token::IDENTIFIER, "intmain"), Ok(Some(("intmain", ""))));
    assert_eq!(try_rule(&Token::IDENTIFIER, "int main"), Ok(Some(("int", " main"))));
    assert_eq!(try_rule(&Token::CONSTANT, "123main"), Ok(None));
    assert_eq!(try_rule(&Token::CONSTANT, "123 main"), Ok(Some(("123", " main"))));
    assert_eq!(try_rule(&Token::OPENPARENTHESIS, "(void)"), Ok(Some(("(", "void)"))));
    assert_eq!(try_rule(&Token::CLOSEPARENTHESIS, ") {"), Ok(Some((")", " {"))));
    assert_eq!(try_rule(&Token::OPENBRACE, "{ }"), Ok(Some(("{", " }"))));
    assert_eq!(try_rule(&Token::CLOSEBRACE, "}"), Ok(Some(("}", ""))));
    assert_eq!(try_rule(&Token::SEMICOLON, "; }"), Ok(Some((";", " }"))));
    assert_eq!(try_rule(&Token::SEMICOLON, " ;"), Ok(None));
}

#[test]
fn the_rules_are_taken_by_the_matcher() {
    for token in token_vec() {
        assert!(apply_rule(regex_resolver(&token), "").is_ok(), "{:?}", token);
        assert!(try_rule(&token, "int").is_ok(), "{:?}", token);
    }
    assert!(token_resolver("main").is_ok());
    assert!(token_resolver("2").is_ok());
}

#[test]
fn a_refused_pattern_fails_on_every_text() {
    for text in ["", "(", "int main", " "] {
        assert_eq!(
            apply_rule("(", text),
            Err(LexError::InvalidRule(String::from("(")))
        );
    }
}
