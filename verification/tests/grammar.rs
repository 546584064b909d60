use minimal_compiler::lexer::{token_resolver, token_vec, tokenize, try_rule, LexError, Token};

fn is_word_char(c: char) -> bool {
    c.is_ascii_alphanumeric() || c == '_'
}

fn is_name(word: &str) -> bool {
    !word.is_empty() && word.chars().all(is_word_char) && !word.starts_with(|c: char| c.is_ascii_digit())
}

fn is_number(word: &str) -> bool {
    !word.is_empty() && word.chars().all(|c| c.is_ascii_digit())
}

fn is_keyword(word: &str) -> bool {
    word == "int" || word == "void" || word == "return"
}

fn symbol_kind(c: char) -> Option<Token> {
    match c {
        '(' => Some(Token::OPENPARENTHESIS),
        ')' => Some(Token::CLOSEPARENTHESIS),
        '{' => Some(Token::OPENBRACE),
        '}' => Some(Token::CLOSEBRACE),
        ';' => Some(Token::SEMICOLON),
        _ => None,
    }
}

fn leading_word(text: &str) -> &str {
    let end = text.find(|c: char| !is_word_char(c)).unwrap_or(text.len());
    &text[..end]
}

/// Where the lexeme ends that the rule of `token` is meant to cut off `text`.
fn meant_end(token: Token, text: &str) -> Option<usize> {
    let word = leading_word(text);
    let found = match token {
        Token::KEYWORD => is_keyword(word),
        Token::IDENTIFIER => is_name(word),
        Token::CONSTANT => is_number(word),
        _ => false,
    };
    if found {
        Some(word.len())
    } else if text.chars().next().and_then(symbol_kind) == Some(token) {
        Some(1)
    } else {
        None
    }
}

fn meant_kind(lexeme: &str) -> Option<Token> {
    if is_keyword(lexeme) {
        Some(Token::KEYWORD)
    } else if is_name(lexeme) {
        Some(Token::IDENTIFIER)
    } else if is_number(lexeme) {
        Some(Token::CONSTANT)
    } else if lexeme.chars().count() == 1 {
        symbol_kind(lexeme.chars().next().unwrap())
    } else {
        None
    }
}

/// The tokens that the grammar gives `input`, or the text at which it stops.
fn meant_tokens(input: &str) -> Result<Vec<Token>, String> {
    let mut tokens = Vec::new();
    let mut rest = input.trim_start_matches([' ', '\t', '\n']);
    while !rest.is_empty() {
        let end = token_vec().into_iter().find_map(|token| meant_end(token, rest));
        match end {
            None => return Err(String::from(rest)),
            Some(end) => {
                tokens.push(meant_kind(&rest[..end]).unwrap());
                rest = rest[end..].trim_start_matches([' ', '\t', '\n']);
            }
        }
    }
    Ok(tokens)
}

/// All texts of at most `len` characters over `alphabet`.
fn texts(alphabet: &[char], len: usize) -> Vec<String> {
    let mut all = vec![String::new()];
    let mut last = vec![String::new()];
    for _ in 0..len {
        let mut next = Vec::new();
        for text in &last {
            for c in alphabet {
                let mut longer = text.clone();
                longer.push(*c);
                next.push(longer);
            }
        }
        all.extend(next.iter().cloned());
        last = next;
    }
    all
}

fn check_rules(alphabet: &[char], len: usize) {
    for text in texts(alphabet, len) {
        for token in token_vec() {
            let expected = meant_end(token, &text).map(|end| (&text[..end], &text[end..]));
            assert_eq!(try_rule(&token, &text), Ok(expected), "{:?} on {:?}", token, text);
        }
    }
}

fn check_tokens(alphabet: &[char], len: usize) {
    for text in texts(alphabet, len) {
        let expected = meant_tokens(&text).map_err(LexError::UnknownLexeme);
        assert_eq!(tokenize(&text), expected, "on {:?}", text);
    }
}

#[test]
fn rules_find_what_they_are_meant_to_find_in_words() {
    check_rules(&['i', 'n', 't', '_', '7', ' ', '('], 3);
}

#[test]
fn rules_find_what_they_are_meant_to_find_in_symbols() {
    check_rules(&['(', ')', '{', '}', ';', 'a', '0', '\n'], 2);
}

#[test]
fn rules_find_what_they_are_meant_to_find_near_other_characters() {
    check_rules(&['x', '1', '+', '\t', '\r', '\u{7f}', '\0', '-', '.'], 2);
}

#[test]
fn rules_find_the_keywords() {
    let words = ["int", "void", "return", "in", "voi", "retur", "Int", "VOID", "returns", "int_"];
    let behind = ["", " ", "(", ";", "x", "0", "_", "\n", "+", " int"];
    for word in words {
        for tail in behind {
            let text = format!("{}{}", word, tail);
            for token in token_vec() {
                let expected = meant_end(token, &text).map(|end| (&text[..end], &text[end..]));
                assert_eq!(try_rule(&token, &text), Ok(expected), "{:?} on {:?}", token, text);
            }
        }
    }
}

#[test]
fn resolver_tells_names_and_numbers_as_the_grammar_does() {
    for text in texts(&['i', 'n', 't', '_', '7', ' ', '(', ';', '\n'], 3) {
        let expected = match meant_kind(&text) {
            Some(token) => Ok(token),
            None => Err(LexError::UnresolvedLexeme(text.clone())),
        };
        assert_eq!(token_resolver(&text), expected, "on {:?}", text);
    }
}

#[test]
fn tokens_are_those_of_the_grammar_for_words_and_blanks() {
    check_tokens(&['i', 'n', 't', ' ', '1', '_'], 4);
}

#[test]
fn tokens_are_those_of_the_grammar_for_symbols() {
    check_tokens(&['(', ')', '{', '}', ';', 'a', '2', '\n', '+'], 3);
}

#[test]
fn a_program_has_one_token_for_each_lexeme() {
    let lexemes = ["int", "main", "(", "void", ")", "{", "return", "42", ";", "}", "x_1", "0"];
    let kinds: Vec<Token> = lexemes.iter().map(|lexeme| meant_kind(lexeme).unwrap()).collect();
    for gap in [" ", "\n", "\t", "  \n\t "] {
        let text = format!("{}{}{}", gap, lexemes.join(gap), gap);
        let tokens = tokenize(&text).unwrap();
        assert_eq!(tokens.len(), lexemes.len());
        assert_eq!(tokens, kinds);
    }
}
