//! The lexical grammar that the rules are written for, and what lexing
//! does with a text of that grammar.
//!
//! The lexer itself knows its rules as regular expressions only, and what
//! the matcher makes of them is not proved. This module says in plain
//! terms which lexemes the rules are meant to find, states as a condition
//! on the matcher that it finds exactly those ([`matcher_reads_grammar`]),
//! and proves under that condition that a text made of lexemes and blanks
//! lexes into one token for each lexeme, that a keyword with a word
//! character behind it is never split, and that resolving a lexeme cannot
//! fail.

use crate::lexer::{
    after, categories, constant_pattern, identifier_pattern, is_keyword, is_rule, lex,
    literal_kind, resolved, rule_outcome, rule_pattern, rules_accepted, scan, scan_from,
    tokenized, LexError, LexFailure, Token,
};
use crate::matcher::{regex_find, regex_is_match};
use crate::text::{
    all_blank, head, is_blank, lemma_skip_gap, lemma_split, skip_blanks, splits_at, tail,
};
use vstd::prelude::*;
use vstd::utf8::*;

verus! {

/// The letters of the grammar: `a` to `z` and `A` to `Z`.
pub open spec fn is_letter(c: char) -> bool {
    ('a' <= c && c <= 'z') || ('A' <= c && c <= 'Z')
}

/// The decimal digits.
pub open spec fn is_digit(c: char) -> bool {
    '0' <= c && c <= '9'
}

/// The characters that words are made of: letters, digits and `_`.
pub open spec fn is_word_char(c: char) -> bool {
    is_letter(c) || is_digit(c) || c == '_'
}

/// The kind of a punctuation symbol.
pub open spec fn symbol_kind(c: char) -> Option<Token> {
    if c == '(' {
        Some(Token::OPENPARENTHESIS)
    } else if c == ')' {
        Some(Token::CLOSEPARENTHESIS)
    } else if c == '{' {
        Some(Token::OPENBRACE)
    } else if c == '}' {
        Some(Token::CLOSEBRACE)
    } else if c == ';' {
        Some(Token::SEMICOLON)
    } else {
        None
    }
}

/// A word: one or more word characters.
pub open spec fn is_word(lexeme: Seq<char>) -> bool {
    lexeme.len() > 0 && forall|i: int| 0 <= i < lexeme.len() ==> is_word_char(#[trigger] lexeme[i])
}

/// A name: a word that starts with no digit. The keywords are names.
pub open spec fn is_name(lexeme: Seq<char>) -> bool {
    is_word(lexeme) && !is_digit(lexeme[0])
}

/// A number: one or more digits.
pub open spec fn is_number(lexeme: Seq<char>) -> bool {
    lexeme.len() > 0 && forall|i: int| 0 <= i < lexeme.len() ==> is_digit(#[trigger] lexeme[i])
}

/// The kind of a lexeme of the grammar, and `None` for any other text: a
/// keyword, then a name, which is an identifier, then a number, which is a
/// constant, then a punctuation symbol.
pub open spec fn lexeme_kind(lexeme: Seq<char>) -> Option<Token> {
    if is_keyword(lexeme) {
        Some(Token::KEYWORD)
    } else if is_name(lexeme) {
        Some(Token::IDENTIFIER)
    } else if is_number(lexeme) {
        Some(Token::CONSTANT)
    } else if lexeme.len() == 1 {
        symbol_kind(lexeme[0])
    } else {
        None
    }
}

/// The number of word characters that `text` starts with.
pub open spec fn word_len(text: Seq<char>) -> int
    decreases text.len(),
{
    if text.len() > 0 && is_word_char(text[0]) {
        1 + word_len(text.drop_first())
    } else {
        0
    }
}

/// The word that `text` starts with: all its leading word characters.
pub open spec fn leading_word(text: Seq<char>) -> Seq<char> {
    text.subrange(0, word_len(text))
}

/// What the rule of a category is meant to find in `text`.
///
/// The rules of the keywords, the identifiers and the constants look at
/// the whole word that `text` starts with, and find it where it is of
/// their kind. The rule of a punctuation symbol finds that symbol at the
/// start of `text`.
pub open spec fn meant_find(token: Token, text: Seq<char>) -> Option<(int, int)> {
    let word = leading_word(text);
    let found = match token {
        Token::KEYWORD => is_keyword(word),
        Token::IDENTIFIER => is_name(word),
        Token::CONSTANT => is_number(word),
        _ => false,
    };
    if found {
        Some((0, word.len() as int))
    } else if text.len() > 0 && symbol_kind(text[0]) == Some(token) {
        Some((0, 1))
    } else {
        None
    }
}

/// What the scan is meant to find at the start of `text`: the whole word
/// that `text` starts with, where that is a name or a number, or else the
/// punctuation symbol that `text` starts with.
pub open spec fn meant_scan(text: Seq<char>) -> Option<int> {
    let word = leading_word(text);
    if is_name(word) || is_number(word) {
        Some(word.len() as int)
    } else if text.len() > 0 && symbol_kind(text[0]) is Some {
        Some(1)
    } else {
        None
    }
}

/// The condition on the matcher: it takes every pattern of the lexer, on
/// text of the ASCII range it finds with each rule what the rule is meant
/// to find, and it tells names and numbers as the grammar does.
pub open spec fn matcher_reads_grammar() -> bool {
    &&& rules_accepted()
    &&& forall|token: Token, text: Seq<char>|
        is_ascii_chars(text) ==> #[trigger] regex_find(rule_pattern(token), text) == meant_find(
            token,
            text,
        )
    &&& forall|lexeme: Seq<char>|
        is_ascii_chars(lexeme) ==> #[trigger] regex_is_match(identifier_pattern(), lexeme)
            == is_name(lexeme)
    &&& forall|lexeme: Seq<char>|
        is_ascii_chars(lexeme) ==> #[trigger] regex_is_match(constant_pattern(), lexeme)
            == is_number(lexeme)
}

/// The text that the lexemes make with the gaps around them: the first
/// gap, then each lexeme with the next gap behind it.
pub open spec fn program(lexemes: Seq<Seq<char>>, gaps: Seq<Seq<char>>) -> Seq<char>
    recommends
        gaps.len() == lexemes.len() + 1,
    decreases lexemes.len(),
{
    if lexemes.len() == 0 {
        gaps[0]
    } else {
        gaps[0] + lexemes[0] + program(lexemes.drop_first(), gaps.drop_first())
    }
}

/// Lexemes of the grammar with gaps around them, where two words that
/// follow each other have at least one blank between them.
pub open spec fn well_formed(lexemes: Seq<Seq<char>>, gaps: Seq<Seq<char>>) -> bool {
    &&& gaps.len() == lexemes.len() + 1
    &&& forall|i: int| 0 <= i < gaps.len() ==> all_blank(#[trigger] gaps[i])
    &&& forall|i: int| 0 <= i < lexemes.len() ==> lexeme_kind(#[trigger] lexemes[i]) is Some
    &&& forall|i: int|
        0 <= i < lexemes.len() - 1 && is_word(lexemes[i]) && is_word(lexemes[i + 1])
            ==> (#[trigger] gaps[i + 1]).len() > 0
}

/// The kinds of the lexemes, one for each.
pub open spec fn kinds(lexemes: Seq<Seq<char>>) -> Seq<Token> {
    Seq::new(lexemes.len(), |i: int| lexeme_kind(lexemes[i]).unwrap())
}

/// What the keywords and the punctuation symbols are made of.
proof fn lemma_literals()
    ensures
        "int"@ == seq!['i', 'n', 't'],
        "void"@ == seq!['v', 'o', 'i', 'd'],
        "return"@ == seq!['r', 'e', 't', 'u', 'r', 'n'],
        "("@ == seq!['('],
        ")"@ == seq![')'],
        "{"@ == seq!['{'],
        "}"@ == seq!['}'],
        ";"@ == seq![';'],
{
    reveal_strlit("int");
    reveal_strlit("void");
    reveal_strlit("return");
    reveal_strlit("(");
    reveal_strlit(")");
    reveal_strlit("{");
    reveal_strlit("}");
    reveal_strlit(";");
    assert("int"@ =~= seq!['i', 'n', 't']);
    assert("void"@ =~= seq!['v', 'o', 'i', 'd']);
    assert("return"@ =~= seq!['r', 'e', 't', 'u', 'r', 'n']);
    assert("("@ =~= seq!['(']);
    assert(")"@ =~= seq![')']);
    assert("{"@ =~= seq!['{']);
    assert("}"@ =~= seq!['}']);
    assert(";"@ =~= seq![';']);
}

/// The keywords are names, and no lexeme has two kinds: the literal kind
/// of a lexeme of the grammar is its kind where it is a keyword or a
/// symbol, and a name or a number has none.
proof fn lemma_literal_kind(lexeme: Seq<char>)
    ensures
        is_keyword(lexeme) ==> is_name(lexeme),
        literal_kind(lexeme) is Some ==> literal_kind(lexeme) == lexeme_kind(lexeme),
        literal_kind(lexeme) is None && lexeme_kind(lexeme) is Some ==> is_word(lexeme),
{
    lemma_literals();
    if literal_kind(lexeme) is None && lexeme_kind(lexeme) is Some && !is_word(lexeme) {
        assert(lexeme.len() == 1);
        assert(lexeme =~= seq![lexeme[0]]);
    }
}

/// In text of the ASCII range every offset up to the length is a character
/// boundary, and cutting there is cutting the sequence of characters.
proof fn lemma_ascii_cut(text: Seq<char>, end: int)
    requires
        is_ascii_chars(text),
        0 <= end <= text.len(),
    ensures
        splits_at(text, end),
        head(text, end) == text.subrange(0, end),
        tail(text, end) == text.subrange(end, text.len() as int),
        is_ascii_chars(text.subrange(0, end)),
        is_ascii_chars(text.subrange(end, text.len() as int)),
{
    let bytes = encode_utf8(text);
    is_ascii_chars_encode_utf8(text);
    encode_utf8_valid_utf8(text);
    if end < text.len() {
        assert(bytes[end] == text[end] as u8);
        is_char_boundary_iff_not_is_continuation_byte(bytes, end);
    } else {
        is_char_boundary_start_end_of_seq(bytes);
    }
    lemma_split(text, end);
    let before = head(text, end);
    let behind = tail(text, end);
    is_ascii_chars_concat(text, before, behind);
    is_ascii_chars_encode_utf8(before);
    assert(before =~= text.subrange(0, end));
    assert(behind =~= text.subrange(end, text.len() as int));
}

/// The leading word ends within the text, is made of word characters, and
/// has no word character behind it.
proof fn lemma_word_len(text: Seq<char>)
    ensures
        0 <= word_len(text) <= text.len(),
        forall|i: int| 0 <= i < word_len(text) ==> is_word_char(#[trigger] text[i]),
        word_len(text) < text.len() ==> !is_word_char(text[word_len(text)]),
    decreases text.len(),
{
    if text.len() > 0 && is_word_char(text[0]) {
        let rest = text.drop_first();
        lemma_word_len(rest);
        assert forall|i: int| 0 <= i < word_len(text) implies is_word_char(
            #[trigger] text[i],
        ) by {
            if i > 0 {
                assert(text[i] == rest[i - 1]);
            }
        }
        assert(word_len(text) < text.len() ==> text[word_len(text)] == rest[word_len(rest)]);
    }
}

/// The leading word is at least as long as any run of word characters
/// that the text starts with.
proof fn lemma_word_len_at_least(text: Seq<char>, run: int)
    requires
        0 <= run <= text.len(),
        forall|i: int| 0 <= i < run ==> is_word_char(#[trigger] text[i]),
    ensures
        run <= word_len(text),
{
    lemma_word_len(text);
    if run > word_len(text) {
        assert(is_word_char(text[word_len(text)]));
    }
}

/// A word with something behind it that starts with no word character is
/// the leading word of the whole.
proof fn lemma_leading_word(word: Seq<char>, behind: Seq<char>)
    requires
        forall|i: int| 0 <= i < word.len() ==> is_word_char(#[trigger] word[i]),
        behind.len() == 0 || !is_word_char(behind[0]),
    ensures
        word_len(word + behind) == word.len(),
        leading_word(word + behind) == word,
    decreases word.len(),
{
    let text = word + behind;
    if word.len() == 0 {
        assert(text =~= behind);
    } else {
        assert(text[0] == word[0]);
        assert(text.drop_first() =~= word.drop_first() + behind);
        lemma_leading_word(word.drop_first(), behind);
    }
    assert(text.subrange(0, word.len() as int) =~= word);
}

/// Skipping blanks in text of the ASCII range leaves text of that range.
proof fn lemma_skip_blanks_ascii(text: Seq<char>)
    requires
        is_ascii_chars(text),
    ensures
        is_ascii_chars(skip_blanks(text)),
        skip_blanks(text).len() <= text.len(),
    decreases text.len(),
{
    if text.len() > 0 && is_blank(text[0]) {
        let rest = text.drop_first();
        assert forall|i: int| 0 <= i < rest.len() implies '\0' <= #[trigger] rest[i]
            <= '\u{7f}' by {
            assert(rest[i] == text[i + 1]);
        }
        lemma_skip_blanks_ascii(rest);
    }
}

/// A lexeme of the grammar is of the ASCII range, and is a word or a single
/// punctuation symbol; it starts with no blank.
proof fn lemma_lexeme_shape(lexeme: Seq<char>)
    requires
        lexeme_kind(lexeme) is Some,
    ensures
        is_ascii_chars(lexeme),
        lexeme.len() > 0,
        !is_blank(lexeme[0]),
        is_word(lexeme) || (lexeme.len() == 1 && symbol_kind(lexeme[0]) is Some),
        is_word(lexeme) <==> is_word_char(lexeme[0]),
        is_word(lexeme) ==> is_name(lexeme) || is_number(lexeme),
{
    lemma_literal_kind(lexeme);
}

/// Where the matcher reads the grammar, the scan of a text of the ASCII
/// range finds what it is meant to find, cuts the characters there, and
/// what it cuts off is a lexeme of the grammar that resolves into its
/// kind.
proof fn lemma_scan_grammar(text: Seq<char>)
    requires
        matcher_reads_grammar(),
        is_ascii_chars(text),
    ensures
        scan(text) == Ok::<Option<int>, LexFailure>(meant_scan(text)),
        meant_scan(text) matches Some(end) ==> {
            &&& 0 < end <= text.len()
            &&& (end == word_len(text) || (word_len(text) == 0 && end == 1))
            &&& head(text, end) == text.subrange(0, end)
            &&& tail(text, end) == text.subrange(end, text.len() as int)
            &&& is_ascii_chars(text.subrange(end, text.len() as int))
            &&& lexeme_kind(text.subrange(0, end)) is Some
            &&& resolved(text.subrange(0, end)) == Ok::<Token, LexFailure>(
                lexeme_kind(text.subrange(0, end)).unwrap(),
            )
        },
{
    let word = leading_word(text);
    lemma_word_len(text);
    lemma_literals();
    lemma_literal_kind(word);
    lemma_ascii_cut(text, word_len(text));
    if text.len() > 0 {
        lemma_ascii_cut(text, 1);
    }
    assert(is_number(word) ==> !is_name(word));
    assert(word.len() > 0 ==> word[0] == text[0]);
    assert forall|token: Token| #[trigger]
        rule_outcome(rule_pattern(token), text) == Ok::<Option<int>, LexFailure>(
            match meant_find(token, text) {
                Some((start, end)) => Some(end),
                None => None,
            },
        ) by {
        assert(is_rule(rule_pattern(token)));
        assert(regex_find(rule_pattern(token), text) == meant_find(token, text));
    }
    reveal_with_fuel(scan_from, 9);
    assert(categories()[0] == Token::KEYWORD);
    assert(categories()[1] == Token::IDENTIFIER);
    assert(categories()[2] == Token::OPENPARENTHESIS);
    assert(categories()[3] == Token::CLOSEPARENTHESIS);
    assert(categories()[4] == Token::OPENBRACE);
    assert(categories()[5] == Token::CONSTANT);
    assert(categories()[6] == Token::SEMICOLON);
    assert(categories()[7] == Token::CLOSEBRACE);
    assert(scan(text) == Ok::<Option<int>, LexFailure>(meant_scan(text)));
    if let Some(end) = meant_scan(text) {
        let lexeme = text.subrange(0, end);
        lemma_ascii_cut(text, end);
        lemma_literal_kind(lexeme);
        assert(is_rule(identifier_pattern()));
        assert(is_rule(constant_pattern()));
        assert(regex_is_match(identifier_pattern(), lexeme) == is_name(lexeme));
        assert(regex_is_match(constant_pattern(), lexeme) == is_number(lexeme));
        if is_name(word) || is_number(word) {
            assert(lexeme == word);
        } else {
            assert(lexeme =~= seq![text[0]]);
            assert(!is_word_char(text[0]));
        }
    }
}

/// How a well-formed text starts, and that it is of the ASCII range.
proof fn lemma_program_start(lexemes: Seq<Seq<char>>, gaps: Seq<Seq<char>>)
    requires
        well_formed(lexemes, gaps),
    ensures
        is_ascii_chars(program(lexemes, gaps)),
        gaps[0].len() > 0 ==> program(lexemes, gaps).len() > 0 && is_blank(
            program(lexemes, gaps)[0],
        ),
        gaps[0].len() == 0 && lexemes.len() > 0 ==> program(lexemes, gaps).len() > 0 && program(
            lexemes,
            gaps,
        )[0] == lexemes[0][0],
        gaps[0].len() == 0 && lexemes.len() == 0 ==> program(lexemes, gaps).len() == 0,
    decreases lexemes.len(),
{
    assert(all_blank(gaps[0]));
    if lexemes.len() > 0 {
        lemma_rest_well_formed(lexemes, gaps);
        lemma_program_start(lexemes.drop_first(), gaps.drop_first());
        lemma_lexeme_shape(lexemes[0]);
    }
}

/// Without its first lexeme and its first gap, a well-formed text is
/// well-formed.
proof fn lemma_rest_well_formed(lexemes: Seq<Seq<char>>, gaps: Seq<Seq<char>>)
    requires
        well_formed(lexemes, gaps),
        lexemes.len() > 0,
    ensures
        well_formed(lexemes.drop_first(), gaps.drop_first()),
{
    let rest = lexemes.drop_first();
    let rest_gaps = gaps.drop_first();
    assert forall|i: int| 0 <= i < rest_gaps.len() implies all_blank(#[trigger] rest_gaps[i]) by {
        assert(rest_gaps[i] == gaps[i + 1]);
    }
    assert forall|i: int| 0 <= i < rest.len() implies lexeme_kind(#[trigger] rest[i]) is Some by {
        assert(rest[i] == lexemes[i + 1]);
    }
    assert forall|i: int|
        0 <= i < rest.len() - 1 && is_word(rest[i]) && is_word(rest[i + 1]) implies (
    #[trigger] rest_gaps[i + 1]).len() > 0 by {
        assert(rest[i] == lexemes[i + 1]);
        assert(rest[i + 1] == lexemes[i + 2]);
        assert(rest_gaps[i + 1] == gaps[i + 2]);
    }
}

/// Where the matcher reads the grammar, a lexeme at the start of a text is
/// cut off whole and resolved into its kind, whatever stands behind it,
/// as long as no word character stands behind a word.
proof fn lemma_first_lexeme(lexeme: Seq<char>, behind: Seq<char>)
    requires
        matcher_reads_grammar(),
        lexeme_kind(lexeme) is Some,
        is_ascii_chars(behind),
        is_word(lexeme) ==> behind.len() == 0 || !is_word_char(behind[0]),
    ensures
        scan(lexeme + behind) == Ok::<Option<int>, LexFailure>(Some(lexeme.len() as int)),
        head(lexeme + behind, lexeme.len() as int) == lexeme,
        tail(lexeme + behind, lexeme.len() as int) == behind,
        resolved(lexeme) == Ok::<Token, LexFailure>(lexeme_kind(lexeme).unwrap()),
{
    let text = lexeme + behind;
    let end = lexeme.len() as int;
    lemma_lexeme_shape(lexeme);
    is_ascii_chars_concat(text, lexeme, behind);
    assert(text.subrange(0, end) =~= lexeme);
    assert(text.subrange(end, text.len() as int) =~= behind);
    assert(text[0] == lexeme[0]);
    if is_word(lexeme) {
        lemma_leading_word(lexeme, behind);
    } else {
        assert(word_len(text) == 0);
        assert(leading_word(text) =~= Seq::<char>::empty());
    }
    lemma_scan_grammar(text);
}

/// Where the matcher reads the rules as the grammar has them, lexing a
/// text made of lexemes of the grammar and blanks does not fail, and gives
/// one token for each lexeme, of the lexeme's kind.
///
/// The lexemes are keywords, identifiers, decimal constants and the
/// punctuation symbols; the gaps before, between and behind them are
/// blanks or nothing, and not nothing between two words.
pub proof fn lemma_program_lexes(lexemes: Seq<Seq<char>>, gaps: Seq<Seq<char>>)
    requires
        matcher_reads_grammar(),
        well_formed(lexemes, gaps),
    ensures
        lex(program(lexemes, gaps)) == Ok::<Seq<Token>, LexFailure>(kinds(lexemes)),
        kinds(lexemes).len() == lexemes.len(),
    decreases lexemes.len(),
{
    let text = program(lexemes, gaps);
    assert(all_blank(gaps[0]));
    if lexemes.len() == 0 {
        assert(gaps[0] + Seq::<char>::empty() =~= gaps[0]);
        lemma_skip_gap(gaps[0], Seq::<char>::empty());
        assert(kinds(lexemes) =~= Seq::<Token>::empty());
    } else {
        let lexeme = lexemes[0];
        let rest = lexemes.drop_first();
        let rest_gaps = gaps.drop_first();
        let behind = program(rest, rest_gaps);
        lemma_rest_well_formed(lexemes, gaps);
        lemma_program_lexes(rest, rest_gaps);
        lemma_program_start(rest, rest_gaps);
        lemma_lexeme_shape(lexeme);
        assert(rest_gaps[0] == gaps[1]);
        if is_word(lexeme) && behind.len() > 0 && rest_gaps[0].len() == 0 {
            assert(rest.len() > 0);
            assert(rest[0] == lexemes[1]);
            lemma_lexeme_shape(lexemes[1]);
            assert(!is_word(lexemes[1]));
        }
        lemma_first_lexeme(lexeme, behind);
        assert(text =~= gaps[0] + (lexeme + behind));
        assert((lexeme + behind)[0] == lexeme[0]);
        lemma_skip_gap(gaps[0], lexeme + behind);
        assert(skip_blanks(text) == lexeme + behind);
        assert(kinds(lexemes) =~= seq![lexeme_kind(lexeme).unwrap()] + kinds(rest)) by {
            assert forall|i: int| 1 <= i < lexemes.len() implies lexemes[i] == rest[i - 1] by {}
        }
    }
}

/// Where the matcher reads the rules as the grammar has them,
/// [`crate::lexer::tokenize`] does not fail on a text made of lexemes of
/// the grammar and blanks, and returns one token for each lexeme, of the
/// lexeme's kind.
pub proof fn lemma_tokenize_program(
    lexemes: Seq<Seq<char>>,
    gaps: Seq<Seq<char>>,
    result: Result<Vec<Token>, LexError>,
)
    requires
        matcher_reads_grammar(),
        well_formed(lexemes, gaps),
        tokenized(program(lexemes, gaps), result),
    ensures
        result matches Ok(tokens) && tokens@ == kinds(lexemes) && tokens@.len() == lexemes.len(),
{
    lemma_program_lexes(lexemes, gaps);
}

/// Where the matcher reads the rules as the grammar has them, a keyword
/// with a word character behind it is never split: the scan cuts off the
/// whole word that the text starts with, the word is an identifier, and
/// where lexing succeeds the first token is that identifier.
pub proof fn lemma_keyword_is_not_split(keyword: Seq<char>, next: char, rest: Seq<char>)
    requires
        matcher_reads_grammar(),
        is_keyword(keyword),
        is_word_char(next),
        is_ascii_chars(rest),
    ensures
        ({
            let text = keyword + seq![next] + rest;
            let end = word_len(text);
            &&& keyword.len() < end <= text.len()
            &&& scan(text) == Ok::<Option<int>, LexFailure>(Some(end))
            &&& resolved(text.subrange(0, end)) == Ok::<Token, LexFailure>(Token::IDENTIFIER)
            &&& lex(text) == after(
                seq![Token::IDENTIFIER],
                lex(text.subrange(end, text.len() as int)),
            )
            &&& lex(text) matches Ok(tokens) ==> tokens.len() > 0 && tokens[0]
                == Token::IDENTIFIER
        }),
{
    let text = keyword + seq![next] + rest;
    let end = word_len(text);
    let word = leading_word(text);
    let run = keyword.len() as int + 1;
    lemma_literals();
    lemma_literal_kind(keyword);
    lemma_lexeme_shape(keyword);
    is_ascii_chars_concat(keyword + seq![next], keyword, seq![next]);
    is_ascii_chars_concat(text, keyword + seq![next], rest);
    assert forall|i: int| 0 <= i < run implies is_word_char(#[trigger] text[i]) by {
        if i < keyword.len() {
            assert(text[i] == keyword[i]);
        } else {
            assert(text[i] == next);
        }
    }
    lemma_word_len(text);
    lemma_word_len_at_least(text, run);
    assert(word[0] == keyword[0]);
    assert(is_name(word));
    assert(!is_keyword(word));
    assert(skip_blanks(text) == text);
    lemma_scan_grammar(text);
}

/// Where the matcher reads the rules as the grammar has them, resolving
/// cannot fail: on text of the ASCII range a scan cuts off only what has a
/// kind, so lexing fails only with text that no rule matches.
pub proof fn lemma_only_unknown_lexemes_fail(text: Seq<char>)
    requires
        matcher_reads_grammar(),
        is_ascii_chars(text),
    ensures
        lex(text) matches Err(failure) ==> failure is UnknownLexeme,
    decreases text.len(),
{
    let cursor = skip_blanks(text);
    lemma_skip_blanks_ascii(text);
    if cursor.len() > 0 {
        lemma_scan_grammar(cursor);
        if let Some(end) = meant_scan(cursor) {
            lemma_only_unknown_lexemes_fail(cursor.subrange(end, cursor.len() as int));
        }
    }
}

} // verus!
