//! Tokens, the rule table, and the tokenizer.
//!
//! Lexing goes lexeme by lexeme. A scan tries the rules of the categories
//! in priority order at the start of the text that is left; the first rule
//! that matches a prefix there cuts the lexeme off. The lexeme is then
//! resolved on its own into the kind of the token, and the blanks behind it
//! are skipped.

use crate::matcher::{find, is_match, offsets, regex_accepts, regex_find, regex_is_match};
use crate::text::{
    all_blank, cut, head, lemma_skip_blanks, lemma_skip_gap, lemma_tail_shorter, same_text,
    skip_blanks, splits_at, tail, trim_blanks,
};
use vstd::prelude::*;
use vstd::string::*;

verus! {

/// The kind of a token. A token carries no text of its own.
#[derive(Debug, PartialEq, Eq, Clone, Copy, Structural)]
pub enum Token {
    KEYWORD,
    IDENTIFIER,
    OPENPARENTHESIS,
    CLOSEPARENTHESIS,
    OPENBRACE,
    CONSTANT,
    SEMICOLON,
    CLOSEBRACE,
}

/// Why a text could not be tokenized.
#[derive(Debug, PartialEq, Eq)]
pub enum LexError {
    /// No rule matches at the start of the text that was left, which is
    /// carried here.
    UnknownLexeme(String),
    /// A rule cut off a lexeme, carried here, for which the resolver knows
    /// no kind.
    UnresolvedLexeme(String),
    /// The pattern matcher does not take the pattern of a rule, carried
    /// here.
    InvalidRule(String),
}

/// A [`LexError`] over character sequences.
pub enum LexFailure {
    UnknownLexeme(Seq<char>),
    UnresolvedLexeme(Seq<char>),
    InvalidRule(Seq<char>),
}

impl View for LexError {
    type V = LexFailure;

    open spec fn view(&self) -> LexFailure {
        match self {
            LexError::UnknownLexeme(rest) => LexFailure::UnknownLexeme(rest@),
            LexError::UnresolvedLexeme(lexeme) => LexFailure::UnresolvedLexeme(lexeme@),
            LexError::InvalidRule(pattern) => LexFailure::InvalidRule(pattern@),
        }
    }
}

/// The categories in the order in which their rules are tried.
pub open spec fn categories() -> Seq<Token> {
    seq![
        Token::KEYWORD,
        Token::IDENTIFIER,
        Token::OPENPARENTHESIS,
        Token::CLOSEPARENTHESIS,
        Token::OPENBRACE,
        Token::CONSTANT,
        Token::SEMICOLON,
        Token::CLOSEBRACE,
    ]
}

/// The category table: every token kind once, in priority order.
pub fn token_vec() -> (table: Vec<Token>)
    ensures
        table@ == categories(),
{
    let table = vec![
        Token::KEYWORD,
        Token::IDENTIFIER,
        Token::OPENPARENTHESIS,
        Token::CLOSEPARENTHESIS,
        Token::OPENBRACE,
        Token::CONSTANT,
        Token::SEMICOLON,
        Token::CLOSEBRACE,
    ];
    assert(table@ =~= categories());
    table
}

/// The rule of a category: the regular expression that finds a lexeme of
/// that category at the start of a text.
pub open spec fn rule_pattern(token: Token) -> Seq<char> {
    match token {
        Token::KEYWORD => r"^(int|void|return)\b"@,
        Token::IDENTIFIER => r"^[a-zA-Z_][a-zA-Z0-9_]*\b"@,
        Token::OPENPARENTHESIS => r"^\("@,
        Token::CLOSEPARENTHESIS => r"^\)"@,
        Token::OPENBRACE => r"^\{"@,
        Token::CONSTANT => r"^[0-9]+\b"@,
        Token::SEMICOLON => r"^;"@,
        Token::CLOSEBRACE => r"^\}"@,
    }
}

/// The rule of a category, as the pattern matcher takes it.
pub fn regex_resolver(token: &Token) -> (pattern: &'static str)
    ensures
        pattern@ == rule_pattern(*token),
{
    match token {
        Token::KEYWORD => r"^(int|void|return)\b",
        Token::IDENTIFIER => r"^[a-zA-Z_][a-zA-Z0-9_]*\b",
        Token::OPENPARENTHESIS => r"^\(",
        Token::CLOSEPARENTHESIS => r"^\)",
        Token::OPENBRACE => r"^\{",
        Token::CONSTANT => r"^[0-9]+\b",
        Token::SEMICOLON => r"^;",
        Token::CLOSEBRACE => r"^\}",
    }
}

/// The regular expression that a whole lexeme matches when it is shaped
/// like an identifier.
pub open spec fn identifier_pattern() -> Seq<char> {
    r"^[a-zA-Z_][a-zA-Z0-9_]*$"@
}

/// The regular expression that a whole lexeme matches when it is a decimal
/// constant.
pub open spec fn constant_pattern() -> Seq<char> {
    r"^[0-9]+$"@
}

/// Whether `pattern` is one of the lexer's regular expressions.
pub open spec fn is_rule(pattern: Seq<char>) -> bool {
    ||| exists|token: Token| pattern == rule_pattern(token)
    ||| pattern == identifier_pattern()
    ||| pattern == constant_pattern()
}

/// The keywords.
pub open spec fn is_keyword(lexeme: Seq<char>) -> bool {
    lexeme == "int"@ || lexeme == "void"@ || lexeme == "return"@
}

/// The kind of a lexeme that is a keyword or a punctuation symbol.
pub open spec fn literal_kind(lexeme: Seq<char>) -> Option<Token> {
    if is_keyword(lexeme) {
        Some(Token::KEYWORD)
    } else if lexeme == "("@ {
        Some(Token::OPENPARENTHESIS)
    } else if lexeme == ")"@ {
        Some(Token::CLOSEPARENTHESIS)
    } else if lexeme == "{"@ {
        Some(Token::OPENBRACE)
    } else if lexeme == "}"@ {
        Some(Token::CLOSEBRACE)
    } else if lexeme == ";"@ {
        Some(Token::SEMICOLON)
    } else {
        None
    }
}

/// The kind of a lexeme, given whether the whole of it is shaped like an
/// identifier and whether the whole of it is a decimal constant. The
/// keywords and the punctuation come first, then the identifier.
pub open spec fn classify(lexeme: Seq<char>, identifier: bool, constant: bool) -> Option<Token> {
    match literal_kind(lexeme) {
        Some(token) => Some(token),
        None => if identifier {
            Some(Token::IDENTIFIER)
        } else if constant {
            Some(Token::CONSTANT)
        } else {
            None
        },
    }
}

/// What resolving a lexeme comes to: its kind, or the failure.
///
/// A keyword or a punctuation symbol has its kind at once. For any other
/// lexeme the matcher has to take the two patterns that tell the shapes,
/// the identifier's first, and the lexeme that is of neither shape is the
/// failure.
pub open spec fn resolved(lexeme: Seq<char>) -> Result<Token, LexFailure> {
    match literal_kind(lexeme) {
        Some(token) => Ok(token),
        None => if !regex_accepts(identifier_pattern()) {
            Err(LexFailure::InvalidRule(identifier_pattern()))
        } else if !regex_accepts(constant_pattern()) {
            Err(LexFailure::InvalidRule(constant_pattern()))
        } else {
            match classify(
                lexeme,
                regex_is_match(identifier_pattern(), lexeme),
                regex_is_match(constant_pattern(), lexeme),
            ) {
                Some(token) => Ok(token),
                None => Err(LexFailure::UnresolvedLexeme(lexeme)),
            }
        },
    }
}

/// What a call of [`token_resolver`] returned, over sequences.
pub open spec fn resolution(kind: Result<Token, LexError>) -> Result<Token, LexFailure> {
    match kind {
        Ok(token) => Ok(token),
        Err(error) => Err(error@),
    }
}

/// The kind of a lexeme that is a keyword or a punctuation symbol.
pub fn literal_token(lexeme: &str) -> (kind: Option<Token>)
    ensures
        kind == literal_kind(lexeme@),
{
    if same_text(lexeme, "int") || same_text(lexeme, "void") || same_text(lexeme, "return") {
        Some(Token::KEYWORD)
    } else if same_text(lexeme, "(") {
        Some(Token::OPENPARENTHESIS)
    } else if same_text(lexeme, ")") {
        Some(Token::CLOSEPARENTHESIS)
    } else if same_text(lexeme, "{") {
        Some(Token::OPENBRACE)
    } else if same_text(lexeme, "}") {
        Some(Token::CLOSEBRACE)
    } else if same_text(lexeme, ";") {
        Some(Token::SEMICOLON)
    } else {
        None
    }
}

/// The kind of a lexeme, given what the pattern matcher said of its shape.
pub fn classify_lexeme(lexeme: &str, identifier: bool, constant: bool) -> (kind: Option<Token>)
    ensures
        kind == classify(lexeme@, identifier, constant),
{
    match literal_token(lexeme) {
        Some(token) => Some(token),
        None => if identifier {
            Some(Token::IDENTIFIER)
        } else if constant {
            Some(Token::CONSTANT)
        } else {
            None
        },
    }
}

/// Resolves a lexeme into the kind of its token, or fails as [`resolved`]
/// says: with the lexeme where it has no kind, with the pattern where the
/// matcher refused it.
pub fn token_resolver(input: &str) -> (kind: Result<Token, LexError>)
    ensures
        resolution(kind) == resolved(input@),
{
    match literal_token(input) {
        Some(token) => Ok(token),
        None => {
            let identifier_rule = r"^[a-zA-Z_][a-zA-Z0-9_]*$";
            let constant_rule = r"^[0-9]+$";
            let identifier = match is_match(identifier_rule, input) {
                Ok(found) => found,
                Err(_) => {
                    return Err(LexError::InvalidRule(identifier_rule.to_owned()));
                },
            };
            let constant = match is_match(constant_rule, input) {
                Ok(found) => found,
                Err(_) => {
                    return Err(LexError::InvalidRule(constant_rule.to_owned()));
                },
            };
            match classify_lexeme(input, identifier, constant) {
                Some(token) => Ok(token),
                None => Err(LexError::UnresolvedLexeme(input.to_owned())),
            }
        },
    }
}

/// Where the lexeme ends that a rule cut off: the end of what the matcher
/// found, where that is a prefix of `text` with at least one character in it.
pub open spec fn prefix_end(text: Seq<char>, found: Option<(int, int)>) -> Option<int> {
    match found {
        Some((start, end)) => if start == 0 && end > 0 && splits_at(text, end) {
            Some(end)
        } else {
            None
        },
        None => None,
    }
}

/// What applying a rule at the start of `text` comes to: the end of the
/// lexeme that it cuts off, `None` where it matches no prefix, or the
/// failure where the matcher refuses the pattern.
pub open spec fn rule_outcome(pattern: Seq<char>, text: Seq<char>) -> Result<
    Option<int>,
    LexFailure,
> {
    if regex_accepts(pattern) {
        Ok(prefix_end(text, regex_find(pattern, text)))
    } else {
        Err(LexFailure::InvalidRule(pattern))
    }
}

/// The scan from the `from`-th category on: what the first rule comes to
/// that cuts a lexeme off or is refused.
pub open spec fn scan_from(text: Seq<char>, from: int) -> Result<Option<int>, LexFailure>
    decreases categories().len() - from,
{
    if 0 <= from < categories().len() {
        match rule_outcome(rule_pattern(categories()[from]), text) {
            Ok(None) => scan_from(text, from + 1),
            decided => decided,
        }
    } else {
        Ok(None)
    }
}

/// The scan: the byte offset at which the first lexeme of `text` ends,
/// `None` where no rule matches a prefix of `text`, or the failure where
/// the matcher refuses a rule before one has matched.
pub open spec fn scan(text: Seq<char>) -> Result<Option<int>, LexFailure> {
    scan_from(text, 0)
}

/// A scan ends behind at least one character, and fails only with a rule
/// of a category that the matcher refuses.
pub proof fn lemma_scan_from(text: Seq<char>, from: int)
    ensures
        scan_from(text, from) matches Ok(Some(end)) ==> end > 0 && splits_at(text, end),
        scan_from(text, from) matches Err(failure) ==> exists|token: Token|
            failure == LexFailure::InvalidRule(rule_pattern(token)) && !regex_accepts(
                rule_pattern(token),
            ),
    decreases categories().len() - from,
{
    if 0 <= from < categories().len() {
        lemma_scan_from(text, from + 1);
        let token = categories()[from];
        if !regex_accepts(rule_pattern(token)) {
            assert(scan_from(text, from) == Err::<Option<int>, LexFailure>(
                LexFailure::InvalidRule(rule_pattern(token)),
            ));
        }
    }
}

/// The tokens of `text`, or the first failure.
///
/// Blanks before a lexeme are skipped. Where text is left, the scan cuts a
/// lexeme off, the lexeme is resolved, and lexing goes on behind it.
pub open spec fn lex(text: Seq<char>) -> Result<Seq<Token>, LexFailure>
    decreases text.len(),
    via lex_decreases
{
    let cursor = skip_blanks(text);
    if cursor.len() == 0 {
        Ok(Seq::empty())
    } else {
        match scan(cursor) {
            Err(failure) => Err(failure),
            Ok(None) => Err(LexFailure::UnknownLexeme(cursor)),
            Ok(Some(end)) => match resolved(head(cursor, end)) {
                Err(failure) => Err(failure),
                Ok(token) => after(seq![token], lex(tail(cursor, end))),
            },
        }
    }
}

#[via_fn]
proof fn lex_decreases(text: Seq<char>) {
    let cursor = skip_blanks(text);
    lemma_skip_blanks(text);
    if let Ok(Some(end)) = scan(cursor) {
        lemma_scan_from(cursor, 0);
        lemma_tail_shorter(cursor, end);
    }
}

/// `tokens` followed by what `rest` holds, or the failure that `rest` is.
pub open spec fn after(tokens: Seq<Token>, rest: Result<Seq<Token>, LexFailure>) -> Result<
    Seq<Token>,
    LexFailure,
> {
    match rest {
        Ok(more) => Ok(tokens + more),
        Err(failure) => Err(failure),
    }
}

/// Whether `parts` is what cutting `text` comes to when `expected` is the
/// end of the lexeme: the lexeme and the text behind it, `None` for
/// `None`, and the same failure.
pub open spec fn cuts(
    text: Seq<char>,
    parts: Result<Option<(&str, &str)>, LexError>,
    expected: Result<Option<int>, LexFailure>,
) -> bool {
    match parts {
        Ok(Some((lexeme, rest))) => expected matches Ok(Some(end)) && lexeme@ == head(text, end)
            && rest@ == tail(text, end),
        Ok(None) => expected == Ok::<Option<int>, LexFailure>(None),
        Err(error) => expected == Err::<Option<int>, LexFailure>(error@),
    }
}

/// Cuts the lexeme off that the matcher found, where what it found is a
/// prefix of `text` with at least one character in it: the lexeme, and the
/// text behind it.
pub fn split_match<'a>(text: &'a str, found: Option<(usize, usize)>) -> (parts: Option<
    (&'a str, &'a str),
>)
    ensures
        match parts {
            Some((lexeme, rest)) => prefix_end(text@, offsets(found)) matches Some(end) && lexeme@
                == head(text@, end) && rest@ == tail(text@, end),
            None => prefix_end(text@, offsets(found)) is None,
        },
{
    match found {
        Some((start, end)) => if start == 0 && end > 0 {
            cut(text, end)
        } else {
            None
        },
        None => None,
    }
}

/// Applies a rule, given as its regular expression, at the start of
/// `text`: the lexeme that it cuts off and the text behind it, or `None`
/// where the rule matches no prefix of `text`. It fails exactly where the
/// matcher refuses the pattern, which then comes back in the error.
pub fn apply_rule<'a>(pattern: &str, text: &'a str) -> (parts: Result<
    Option<(&'a str, &'a str)>,
    LexError,
>)
    ensures
        cuts(text@, parts, rule_outcome(pattern@, text@)),
        parts is Err <==> !regex_accepts(pattern@),
{
    match find(pattern, text) {
        Ok(found) => Ok(split_match(text, found)),
        Err(_) => Err(LexError::InvalidRule(pattern.to_owned())),
    }
}

/// Tries the rule of one category at the start of `text`: the lexeme that
/// it cuts off and the text behind it, or `None` where the rule matches no
/// prefix of `text`. It fails exactly where the matcher refuses the rule.
pub fn try_rule<'a>(token: &Token, text: &'a str) -> (parts: Result<
    Option<(&'a str, &'a str)>,
    LexError,
>)
    ensures
        cuts(text@, parts, rule_outcome(rule_pattern(*token), text@)),
        parts is Err <==> !regex_accepts(rule_pattern(*token)),
{
    apply_rule(regex_resolver(token), text)
}

/// Scans for the first lexeme of `text`: the lexeme and the text behind
/// it, or `None` where no rule matches a prefix of `text`.
///
/// The rules are tried in the order of [`token_vec`], as [`scan`] has it.
/// The scan fails exactly where the matcher refuses a rule before one has
/// cut a lexeme off.
pub fn next_lexeme<'a>(text: &'a str) -> (parts: Result<Option<(&'a str, &'a str)>, LexError>)
    ensures
        cuts(text@, parts, scan(text@)),
{
    let table = token_vec();
    let mut i: usize = 0;
    while i < table.len()
        invariant
            table@ == categories(),
            i <= table@.len(),
            scan(text@) == scan_from(text@, i as int),
        decreases table@.len() - i,
    {
        match try_rule(&table[i], text) {
            Err(error) => {
                return Err(error);
            },
            Ok(Some(parts)) => {
                return Ok(Some(parts));
            },
            Ok(None) => {},
        }
        i += 1;
    }
    Ok(None)
}

/// What a call of [`tokenize`] returned, over sequences.
pub open spec fn outcome(result: Result<Vec<Token>, LexError>) -> Result<Seq<Token>, LexFailure> {
    match result {
        Ok(tokens) => Ok(tokens@),
        Err(error) => Err(error@),
    }
}

/// What [`tokenize`] promises of its result on `input`: it is `lex(input)`,
/// the same tokens or the same failure with the same text in it.
pub open spec fn tokenized(input: Seq<char>, result: Result<Vec<Token>, LexError>) -> bool {
    outcome(result) == lex(input)
}

/// Tokenizes a source text: the kinds of its lexemes, in source order, or
/// the first failure.
pub fn tokenize(input: &str) -> (result: Result<Vec<Token>, LexError>)
    ensures
        tokenized(input@, result),
{
    let mut tokens: Vec<Token> = Vec::new();
    let mut current = trim_blanks(input);
    proof {
        lemma_skip_blanks(input@);
        assert(Seq::<Token>::empty() + lex(input@)->Ok_0 =~= lex(input@)->Ok_0);
    }
    while !current.is_empty()
        invariant
            current@ == skip_blanks(current@),
            lex(input@) == after(tokens@, lex(current@)),
        decreases current@.len(),
    {
        let (lexeme, rest) = match next_lexeme(current) {
            Err(error) => {
                return Err(error);
            },
            Ok(None) => {
                return Err(LexError::UnknownLexeme(current.to_owned()));
            },
            Ok(Some(parts)) => parts,
        };
        let token = match token_resolver(lexeme) {
            Err(error) => {
                return Err(error);
            },
            Ok(token) => token,
        };
        proof {
            let end = scan(current@)->Ok_0->Some_0;
            lemma_scan_from(current@, 0);
            lemma_tail_shorter(current@, end);
            lemma_skip_blanks(rest@);
            let more = lex(rest@);
            if more is Ok {
                assert(tokens@.push(token) + more->Ok_0 =~= tokens@ + (seq![token] + more->Ok_0));
            }
        }
        tokens.push(token);
        current = trim_blanks(rest);
    }
    proof {
        assert(tokens@ + Seq::<Token>::empty() =~= tokens@);
    }
    Ok(tokens)
}

/// Whether the matcher takes every pattern of the lexer: the rules of the
/// categories and the two patterns of the resolver.
pub open spec fn rules_accepted() -> bool {
    forall|pattern: Seq<char>| is_rule(pattern) ==> regex_accepts(pattern)
}

/// Lexing fails with a refused rule only where there is text to match, and
/// only with a pattern of the lexer that the matcher does not take.
pub proof fn lemma_lex_refusal(text: Seq<char>)
    ensures
        lex(text) matches Err(LexFailure::InvalidRule(pattern)) ==> is_rule(pattern)
            && !regex_accepts(pattern) && skip_blanks(text).len() > 0,
    decreases text.len(),
{
    let cursor = skip_blanks(text);
    lemma_skip_blanks(text);
    if cursor.len() > 0 {
        lemma_scan_from(cursor, 0);
        if let Ok(Some(end)) = scan(cursor) {
            lemma_tail_shorter(cursor, end);
            lemma_lex_refusal(tail(cursor, end));
        }
    }
}

/// Where the matcher takes every pattern of the lexer, [`tokenize`]
/// reports no refused rule: it returns the tokens, or fails with the text
/// that no rule matches or that has no kind.
pub proof fn lemma_tokenize_accepted(input: Seq<char>, result: Result<Vec<Token>, LexError>)
    requires
        rules_accepted(),
        tokenized(input, result),
    ensures
        !(result matches Err(LexError::InvalidRule(_))),
{
    lemma_lex_refusal(input);
}

/// Blanks hold no token: a text of blanks alone, or of nothing, lexes into
/// no tokens and does not fail.
pub proof fn lemma_lex_blank(text: Seq<char>)
    requires
        all_blank(text),
    ensures
        lex(text) == Ok::<Seq<Token>, LexFailure>(Seq::empty()),
{
    lemma_skip_gap(text, Seq::empty());
    assert(text + Seq::<char>::empty() =~= text);
}

/// Blanks before a text make no difference to its tokens, nor to whether
/// and how lexing fails.
pub proof fn lemma_lex_leading_blanks(gap: Seq<char>, text: Seq<char>)
    requires
        all_blank(gap),
    ensures
        lex(gap + text) == lex(text),
{
    lemma_skip_gap(gap, text);
}

/// On blanks alone, or on nothing, [`tokenize`] returns no tokens and does
/// not fail.
pub proof fn lemma_tokenize_blank(input: Seq<char>, result: Result<Vec<Token>, LexError>)
    requires
        all_blank(input),
        tokenized(input, result),
    ensures
        result matches Ok(tokens) && tokens@ == Seq::<Token>::empty(),
{
    lemma_lex_blank(input);
}

/// Two calls of [`tokenize`] on the same text return the same: the same
/// tokens, or the same failure with the same text in it.
pub proof fn lemma_tokenize_repeatable(
    input: Seq<char>,
    first: Result<Vec<Token>, LexError>,
    second: Result<Vec<Token>, LexError>,
)
    requires
        tokenized(input, first),
        tokenized(input, second),
    ensures
        outcome(first) == outcome(second),
{
}

} // verus!
