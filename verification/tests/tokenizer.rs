use css_tokenizer::input::Input;
use css_tokenizer::token::{Construct, Token, UnclosedConstruct};
use css_tokenizer::tokenizer::{
    char_code_at, index_of_char, index_of_end_comment, sub_string, Tokenizer,
};

fn tokens_of(css: &str, ignore_errors: bool) -> Vec<Token> {
    let input = Input::new(css);
    let mut tokenizer = Tokenizer::new(&input, ignore_errors);
    let mut tokens = Vec::new();
    while !tokenizer.end_of_file() {
        tokens.push(tokenizer.next_token(false).unwrap());
    }
    tokens
}

fn contents_of(tokens: &[Token]) -> String {
    let mut all = String::new();
    for token in tokens {
        all.push_str(&token.1);
    }
    all
}

fn kinds_of(tokens: &[Token]) -> Vec<String> {
    tokens.iter().map(|token| token.0.clone()).collect()
}

#[test]
fn test_char_code_at() {
    let s = Input::new("0123456789abc");
    assert_eq!(char_code_at(&s, 0), '0');
    assert_eq!(char_code_at(&s, 1), '1');
    assert_eq!(char_code_at(&s, 100), '\0');
}

#[test]
fn char_code_at_counts_characters() {
    let s = Input::new("aé😀b");
    assert_eq!(char_code_at(&s, 1), 'é');
    assert_eq!(char_code_at(&s, 2), '😀');
    assert_eq!(char_code_at(&s, 3), 'b');
    assert_eq!(char_code_at(&s, 4), '\0');
}

#[test]
fn input_length_is_in_characters() {
    assert_eq!(Input::new("").len(), 0);
    assert_eq!(Input::new("aé😀b").len(), 4);
    assert_eq!(Input::new("aé😀b").get(2), '😀');
    assert_eq!(Input::new("aé😀b").codes(), &[b'a', 0x80, 0x80, b'b'][..]);
}

#[test]
fn sub_string_cuts_and_clamps() {
    let s = Input::new("héllo world");
    assert_eq!(sub_string(&s, 0, 5), "héllo");
    assert_eq!(sub_string(&s, 6, 11), "world");
    assert_eq!(sub_string(&s, 6, 100), "world");
    assert_eq!(sub_string(&s, 3, 3), "");
    assert_eq!(sub_string(&s, 11, 12), "");
}

#[test]
fn index_of_char_finds_the_first_from_the_offset() {
    let s = Input::new("a)b)c");
    assert_eq!(index_of_char(&s, ')', 0), Some(1));
    assert_eq!(index_of_char(&s, ')', 1), Some(1));
    assert_eq!(index_of_char(&s, ')', 2), Some(3));
    assert_eq!(index_of_char(&s, ')', 4), None);
    assert_eq!(index_of_char(&s, ')', 5), None);
    assert_eq!(index_of_char(&s, ')', 6), None);
    assert_eq!(index_of_char(&s, 'x', 0), None);
}

#[test]
fn index_of_char_counts_characters_not_bytes() {
    let s = Input::new("é😀)é");
    assert_eq!(index_of_char(&s, ')', 0), Some(2));
    assert_eq!(index_of_char(&s, 'é', 0), Some(0));
    assert_eq!(index_of_char(&s, 'é', 1), Some(3));
    assert_eq!(index_of_char(&s, '😀', 0), Some(1));
    assert_eq!(index_of_char(&s, '\u{80}', 0), None);
}

#[test]
fn index_of_end_comment_finds_the_first_from_the_offset() {
    let s = Input::new("/* a */ b */");
    assert_eq!(index_of_end_comment(&s, 0), Some(5));
    assert_eq!(index_of_end_comment(&s, 2), Some(5));
    assert_eq!(index_of_end_comment(&s, 5), Some(5));
    assert_eq!(index_of_end_comment(&s, 6), Some(10));
    assert_eq!(index_of_end_comment(&s, 11), None);
    assert_eq!(index_of_end_comment(&s, 12), None);
    assert_eq!(index_of_end_comment(&s, 13), None);
    assert_eq!(index_of_end_comment(&Input::new("/*é😀*/"), 2), Some(4));
    assert_eq!(index_of_end_comment(&Input::new("* /"), 0), None);
}

#[test]
fn token_new_keeps_its_arguments() {
    let token = Token::new("word", "red", Some(6), Some(8));
    assert_eq!(token.0, "word");
    assert_eq!(token.1, "red");
    assert_eq!(token.2, Some(6));
    assert_eq!(token.3, Some(8));
    assert_eq!(token.clone(), token);
}

#[test]
fn construct_names() {
    assert_eq!(Construct::Bracket.name(), "bracket");
    assert_eq!(Construct::String.name(), "string");
    assert_eq!(Construct::Comment.name(), "comment");
}

#[test]
fn end_to_end_rule() {
    let input = Input::new("a{color:red}");
    let mut tokenizer = Tokenizer::new(&input, false);
    let expected = [
        Token::new("word", "a", Some(0), Some(0)),
        Token::new("{", "{", Some(1), None),
        Token::new("word", "color", Some(2), Some(6)),
        Token::new(":", ":", Some(7), None),
        Token::new("word", "red", Some(8), Some(10)),
        Token::new("}", "}", Some(11), None),
    ];
    for token in expected {
        assert!(!tokenizer.end_of_file());
        assert_eq!(tokenizer.next_token(false), Ok(token));
    }
    assert!(tokenizer.end_of_file());
    assert_eq!(tokenizer.position(), 12);
}

#[test]
fn empty_text_is_at_its_end() {
    let input = Input::new("");
    let tokenizer = Tokenizer::new(&input, false);
    assert!(tokenizer.end_of_file());
    assert_eq!(tokenizer.position(), 0);
}

#[test]
fn lossless_partition_of_a_stylesheet() {
    let css = "@media screen and (min-width: 100px) {\n  a::before { content: \"\\201C\"; \
               background: url(img.png) no-repeat; }\r\n\t/* note */ .b\\:c > d { margin: -1px \
               0 !important }\n}\n@import 'x.css';\u{c}é{color:#fff}";
    for ignore in [false, true] {
        let tokens = tokens_of(css, ignore);
        assert_eq!(contents_of(&tokens), css);
        assert!(tokens.iter().all(|token| !token.1.is_empty()));
    }
}

#[test]
fn lossless_partition_of_broken_text_when_lenient() {
    for css in [
        "a { b: 'c",
        "url(abc",
        "/* abc",
        "a / b",
        "/",
        "/ ",
        "\\",
        "\\\\\\",
        "\"",
        "x(\"y\"",
        "a\\",
        "@",
        "((",
        "url(\\)",
        "a//*b*/",
        "\0",
    ] {
        let tokens = tokens_of(css, true);
        assert_eq!(contents_of(&tokens), css, "for {:?}", css);
    }
}

#[test]
fn pushback_identity() {
    let input = Input::new("a b");
    let mut tokenizer = Tokenizer::new(&input, false);
    let first = tokenizer.next_token(false).unwrap();
    let position = tokenizer.position();
    tokenizer.back(first.clone());
    assert_eq!(tokenizer.position(), position);
    assert!(!tokenizer.end_of_file());
    assert_eq!(tokenizer.next_token(false), Ok(first));
    assert_eq!(tokenizer.position(), position);
    assert_eq!(tokenizer.next_token(false), Ok(Token::new("space", " ", None, None)));
}

#[test]
fn pushback_is_last_in_first_out() {
    let input = Input::new("a");
    let mut tokenizer = Tokenizer::new(&input, false);
    let word = tokenizer.next_token(false).unwrap();
    assert!(tokenizer.end_of_file());
    let made_up = Token::new("made-up", "anything", None, Some(3));
    tokenizer.back(word.clone());
    tokenizer.back(made_up.clone());
    assert!(!tokenizer.end_of_file());
    assert_eq!(tokenizer.position(), 1);
    assert_eq!(tokenizer.next_token(false), Ok(made_up));
    assert_eq!(tokenizer.next_token(false), Ok(word));
    assert!(tokenizer.end_of_file());
}

#[test]
fn pushed_back_word_does_not_refresh_the_remembered_word() {
    let input = Input::new("url x(a/b)");
    let mut tokenizer = Tokenizer::new(&input, false);
    let url = tokenizer.next_token(false).unwrap();
    assert_eq!(tokenizer.next_token(false).unwrap().0, "space");
    assert_eq!(tokenizer.next_token(false).unwrap().1, "x");
    tokenizer.back(url.clone());
    assert_eq!(tokenizer.next_token(false), Ok(url));
    assert_eq!(tokenizer.next_token(false), Ok(Token::new("(", "(", Some(5), None)));
}

#[test]
fn whitespace_run_is_one_token() {
    assert_eq!(
        tokens_of("a \t\n\r\u{c} b", false),
        vec![
            Token::new("word", "a", Some(0), Some(0)),
            Token::new("space", " \t\n\r\u{c} ", None, None),
            Token::new("word", "b", Some(7), Some(7)),
        ]
    );
    assert_eq!(tokens_of(" \r\r ", false), vec![Token::new("space", " \r\r ", None, None)]);
}

#[test]
fn other_blank_characters_are_no_whitespace() {
    for blank in ["\u{b}", "\u{12}", "\u{a0}", "\u{2028}", "\u{3000}"] {
        let css = format!(" {} ", blank);
        assert_eq!(
            tokens_of(&css, false),
            vec![
                Token::new("space", " ", None, None),
                Token::new("word", blank, Some(1), Some(1)),
                Token::new("space", " ", None, None),
            ]
        );
    }
}

#[test]
fn punctuation_tokens() {
    assert_eq!(
        tokens_of("[]{}:;)", false),
        vec![
            Token::new("[", "[", Some(0), None),
            Token::new("]", "]", Some(1), None),
            Token::new("{", "{", Some(2), None),
            Token::new("}", "}", Some(3), None),
            Token::new(":", ":", Some(4), None),
            Token::new(";", ";", Some(5), None),
            Token::new(")", ")", Some(6), None),
        ]
    );
}

#[test]
fn string_escape_parity() {
    // "a\" : the quote after one backslash does not close the string
    let input = Input::new("\"a\\\"");
    let mut strict = Tokenizer::new(&input, false);
    assert_eq!(
        strict.next_token(false),
        Err(UnclosedConstruct { construct: Construct::String, position: 0 })
    );
    assert_eq!(
        tokens_of("\"a\\\" b\"", false),
        vec![Token::new("string", "\"a\\\" b\"", Some(0), Some(6))]
    );
    // "a\\" : the quote after two backslashes closes it
    assert_eq!(
        tokens_of("\"a\\\\\"", false),
        vec![Token::new("string", "\"a\\\\\"", Some(0), Some(4))]
    );
    assert_eq!(
        tokens_of("\"a\\\\\" b\"", true),
        vec![
            Token::new("string", "\"a\\\\\"", Some(0), Some(4)),
            Token::new("space", " ", None, None),
            Token::new("word", "b", Some(6), Some(6)),
            Token::new("string", "\"", Some(7), Some(7)),
        ]
    );
}

#[test]
fn strings_of_both_quotes() {
    assert_eq!(
        tokens_of("'a\"b' \"c'd\"", false),
        vec![
            Token::new("string", "'a\"b'", Some(0), Some(4)),
            Token::new("space", " ", None, None),
            Token::new("string", "\"c'd\"", Some(6), Some(10)),
        ]
    );
    assert_eq!(tokens_of("''", false), vec![Token::new("string", "''", Some(0), Some(1))]);
}

#[test]
fn unclosed_string() {
    let input = Input::new("a 'bcd");
    let mut strict = Tokenizer::new(&input, false);
    assert_eq!(strict.next_token(false).unwrap().1, "a");
    assert_eq!(strict.next_token(false).unwrap().0, "space");
    assert_eq!(strict.position(), 2);
    assert_eq!(
        strict.next_token(false),
        Err(UnclosedConstruct { construct: Construct::String, position: 2 })
    );
    // the failed call changed nothing, and the call can be made again
    assert_eq!(strict.position(), 2);
    assert!(!strict.end_of_file());
    assert_eq!(strict.unclosed(Construct::String), UnclosedConstruct {
        construct: Construct::String,
        position: 2
    });
    assert_eq!(strict.next_token(true), Ok(Token::new("string", "'b", Some(2), Some(3))));
    assert_eq!(strict.position(), 4);
    assert_eq!(strict.next_token(false), Ok(Token::new("word", "cd", Some(4), Some(5))));
    assert!(strict.end_of_file());

    assert_eq!(
        tokens_of("a 'bcd", true),
        vec![
            Token::new("word", "a", Some(0), Some(0)),
            Token::new("space", " ", None, None),
            Token::new("string", "'b", Some(2), Some(3)),
            Token::new("word", "cd", Some(4), Some(5)),
        ]
    );
    // the quote is the last character: the token is the quote alone
    assert_eq!(tokens_of("'", true), vec![Token::new("string", "'", Some(0), Some(0))]);
    // the character taken with the quote is one character, whatever its size
    assert_eq!(
        tokens_of("'😀x", true),
        vec![
            Token::new("string", "'😀", Some(0), Some(1)),
            Token::new("word", "x", Some(2), Some(2)),
        ]
    );
}

#[test]
fn url_takes_a_raw_argument() {
    assert_eq!(
        tokens_of("url(foo.png)", false),
        vec![
            Token::new("word", "url", Some(0), Some(2)),
            Token::new("brackets", "(foo.png)", Some(3), Some(11)),
        ]
    );
    assert_eq!(
        tokens_of("url(\"foo.png\")", false),
        vec![
            Token::new("word", "url", Some(0), Some(2)),
            Token::new("(", "(", Some(3), None),
            Token::new("string", "\"foo.png\"", Some(4), Some(12)),
            Token::new(")", ")", Some(13), None),
        ]
    );
    // raw text may hold what a plain parenthesis may not
    assert_eq!(
        tokens_of("url(a/b(c\\)d'\n)", false),
        vec![
            Token::new("word", "url", Some(0), Some(2)),
            Token::new("brackets", "(a/b(c\\)d'\n)", Some(3), Some(14)),
        ]
    );
    // an escaped backslash does not escape the parenthesis
    assert_eq!(
        tokens_of("url(a\\\\)b", false),
        vec![
            Token::new("word", "url", Some(0), Some(2)),
            Token::new("brackets", "(a\\\\)", Some(3), Some(7)),
            Token::new("word", "b", Some(8), Some(8)),
        ]
    );
}

#[test]
fn url_is_told_by_case_and_by_what_follows() {
    assert_eq!(kinds_of(&tokens_of("URL(a/b)", false)), ["word", "(", "word", ")"]);
    assert_eq!(kinds_of(&tokens_of("urls(a/b)", false)), ["word", "(", "word", ")"]);
    assert_eq!(kinds_of(&tokens_of("url( a/b)", false)), ["word", "(", "space", "word", ")"]);
    assert_eq!(kinds_of(&tokens_of("url(\ta/b)", false)), ["word", "(", "space", "word", ")"]);
    assert_eq!(kinds_of(&tokens_of("url(\na/b)", false)), ["word", "(", "space", "word", ")"]);
    assert_eq!(kinds_of(&tokens_of("url(\ra/b)", false)), ["word", "(", "space", "word", ")"]);
    assert_eq!(kinds_of(&tokens_of("url(\u{c}a/b)", false)), ["word", "(", "space", "word", ")"]);
    assert_eq!(kinds_of(&tokens_of("url('a/b')", false)), ["word", "(", "string", ")"]);
    // the word is remembered across other tokens
    assert_eq!(kinds_of(&tokens_of("url (a/b)", false)), ["word", "space", "brackets"]);
    // and forgotten once a parenthesis has been scanned
    assert_eq!(
        kinds_of(&tokens_of("url(a)(b/c)", false)),
        ["word", "brackets", "(", "word", ")"]
    );
    // only the last word counts
    assert_eq!(
        kinds_of(&tokens_of("url x()(a/b)", false)),
        ["word", "space", "word", "brackets", "(", "word", ")"]
    );
}

#[test]
fn unclosed_raw_argument() {
    let input = Input::new("url(abc");
    let mut strict = Tokenizer::new(&input, false);
    assert_eq!(strict.next_token(false).unwrap().1, "url");
    assert_eq!(
        strict.next_token(false),
        Err(UnclosedConstruct { construct: Construct::Bracket, position: 3 })
    );
    assert_eq!(strict.position(), 3);
    // the word is still remembered after the failed call
    assert_eq!(strict.next_token(true), Ok(Token::new("brackets", "(", Some(3), Some(3))));
    assert_eq!(strict.next_token(false), Ok(Token::new("word", "abc", Some(4), Some(6))));

    assert_eq!(
        tokens_of("url(abc", true),
        vec![
            Token::new("word", "url", Some(0), Some(2)),
            Token::new("brackets", "(", Some(3), Some(3)),
            Token::new("word", "abc", Some(4), Some(6)),
        ]
    );
    let at_end = Input::new("url(");
    let mut strict = Tokenizer::new(&at_end, false);
    strict.next_token(false).unwrap();
    assert_eq!(
        strict.next_token(false),
        Err(UnclosedConstruct { construct: Construct::Bracket, position: 3 })
    );
    let escaped = Input::new("url(a\\)");
    let mut strict = Tokenizer::new(&escaped, false);
    strict.next_token(false).unwrap();
    assert_eq!(
        strict.next_token(false),
        Err(UnclosedConstruct { construct: Construct::Bracket, position: 3 })
    );
}

#[test]
fn plain_parentheses() {
    assert_eq!(
        tokens_of("(a b)", false),
        vec![Token::new("brackets", "(a b)", Some(0), Some(4))]
    );
    assert_eq!(tokens_of("()", false), vec![Token::new("brackets", "()", Some(0), Some(1))]);
    assert_eq!(
        tokens_of("(", false),
        vec![Token::new("(", "(", Some(0), None)]
    );
    assert_eq!(
        tokens_of("(a", false),
        vec![Token::new("(", "(", Some(0), None), Token::new("word", "a", Some(1), Some(1))]
    );
    for bad in ["(a\nb)", "(a\"b\")", "(a'b')", "((a)", "(a/b)", "(a\\b)", "(/)"] {
        let tokens = tokens_of(bad, true);
        assert_eq!(tokens[0], Token::new("(", "(", Some(0), None), "for {:?}", bad);
        assert_eq!(contents_of(&tokens), bad);
    }
    // what stands after the closing parenthesis does not count
    assert_eq!(
        tokens_of("(a)/", false),
        vec![
            Token::new("brackets", "(a)", Some(0), Some(2)),
            Token::new("word", "/", Some(3), Some(3)),
        ]
    );
}

#[test]
fn at_words() {
    assert_eq!(
        tokens_of("@media screen", false),
        vec![
            Token::new("at-word", "@media", Some(0), Some(5)),
            Token::new("space", " ", None, None),
            Token::new("word", "screen", Some(7), Some(12)),
        ]
    );
    assert_eq!(tokens_of("@", false), vec![Token::new("at-word", "@", Some(0), Some(0))]);
    assert_eq!(tokens_of("@a/b\\c!d", false), vec![Token::new(
        "at-word",
        "@a/b\\c!d",
        Some(0),
        Some(7)
    )]);
    for (css, rest) in [
        ("@a b", "space"),
        ("@a\tb", "space"),
        ("@a\nb", "space"),
        ("@a\rb", "space"),
        ("@a\u{c}b", "space"),
        ("@a\"b\"", "string"),
        ("@a'b'", "string"),
        ("@a#b", "word"),
        ("@a(b)", "brackets"),
        ("@a)", ")"),
        ("@a[", "["),
        ("@a]", "]"),
        ("@a{", "{"),
        ("@a}", "}"),
        ("@a:", ":"),
        ("@a;", ";"),
        ("@a@b", "at-word"),
        ("@a/*b*/", "comment"),
    ] {
        let tokens = tokens_of(css, false);
        assert_eq!(tokens[0], Token::new("at-word", "@a", Some(0), Some(1)), "for {:?}", css);
        assert_eq!(tokens[1].0, rest, "for {:?}", css);
    }
    assert_eq!(
        tokens_of("@@", false),
        vec![
            Token::new("at-word", "@", Some(0), Some(0)),
            Token::new("at-word", "@", Some(1), Some(1)),
        ]
    );
}

#[test]
fn backslash_escapes() {
    // a character after one backslash belongs to the token
    assert_eq!(
        tokens_of("\\g1", false),
        vec![
            Token::new("word", "\\g", Some(0), Some(1)),
            Token::new("word", "1", Some(2), Some(2)),
        ]
    );
    // hexadecimal digits are taken as a run, with one space after them
    assert_eq!(
        tokens_of("\\201C  x", false),
        vec![
            Token::new("word", "\\201C ", Some(0), Some(5)),
            Token::new("space", " ", None, None),
            Token::new("word", "x", Some(7), Some(7)),
        ]
    );
    assert_eq!(
        tokens_of("\\aF09g", false),
        vec![
            Token::new("word", "\\aF09", Some(0), Some(4)),
            Token::new("word", "g", Some(5), Some(5)),
        ]
    );
    assert_eq!(
        tokens_of("\\1\t", false),
        vec![Token::new("word", "\\1", Some(0), Some(1)), Token::new("space", "\t", None, None)]
    );
    // an even run escapes nothing
    assert_eq!(
        tokens_of("\\\\a", false),
        vec![
            Token::new("word", "\\\\", Some(0), Some(1)),
            Token::new("word", "a", Some(2), Some(2)),
        ]
    );
    assert_eq!(
        tokens_of("\\\\\\a1 ", false),
        vec![Token::new("word", "\\\\\\a1 ", Some(0), Some(5))]
    );
    // a slash or whitespace is left to the next token
    assert_eq!(
        tokens_of("\\/", false),
        vec![
            Token::new("word", "\\", Some(0), Some(0)),
            Token::new("word", "/", Some(1), Some(1)),
        ]
    );
    for space in [" ", "\n", "\t", "\r", "\u{c}"] {
        let css = format!("\\{}", space);
        assert_eq!(
            tokens_of(&css, false),
            vec![
                Token::new("word", "\\", Some(0), Some(0)),
                Token::new("space", space, None, None),
            ]
        );
    }
    // any other character is taken, whatever its size
    assert_eq!(
        tokens_of("\\😀a", false),
        vec![
            Token::new("word", "\\😀", Some(0), Some(1)),
            Token::new("word", "a", Some(2), Some(2)),
        ]
    );
    assert_eq!(tokens_of("\\{", false), vec![Token::new("word", "\\{", Some(0), Some(1))]);
}

#[test]
fn backslashes_at_the_end_of_the_text() {
    assert_eq!(tokens_of("\\", false), vec![Token::new("word", "\\", Some(0), Some(0))]);
    assert_eq!(tokens_of("\\\\", false), vec![Token::new("word", "\\\\", Some(0), Some(1))]);
    assert_eq!(tokens_of("\\\\\\", false), vec![Token::new("word", "\\\\\\", Some(0), Some(2))]);
    assert_eq!(tokens_of("\\a", false), vec![Token::new("word", "\\a", Some(0), Some(1))]);
    assert_eq!(tokens_of("\\a ", false), vec![Token::new("word", "\\a ", Some(0), Some(2))]);
    let input = Input::new("\\");
    let mut tokenizer = Tokenizer::new(&input, false);
    tokenizer.next_token(false).unwrap();
    assert_eq!(tokenizer.position(), 1);
    assert!(tokenizer.end_of_file());
}

#[test]
fn comments() {
    assert_eq!(
        tokens_of("/* a */b", false),
        vec![
            Token::new("comment", "/* a */", Some(0), Some(6)),
            Token::new("word", "b", Some(7), Some(7)),
        ]
    );
    assert_eq!(tokens_of("/**/", false), vec![Token::new("comment", "/**/", Some(0), Some(3))]);
    assert_eq!(
        tokens_of("/* é\n'(\" */", false),
        vec![Token::new("comment", "/* é\n'(\" */", Some(0), Some(10))]
    );
    assert_eq!(
        tokens_of("/* a */ */", false),
        vec![
            Token::new("comment", "/* a */", Some(0), Some(6)),
            Token::new("space", " ", None, None),
            Token::new("word", "*/", Some(8), Some(9)),
        ]
    );
}

#[test]
fn unclosed_comment() {
    let input = Input::new("/* abc");
    let mut strict = Tokenizer::new(&input, false);
    assert_eq!(
        strict.next_token(false),
        Err(UnclosedConstruct { construct: Construct::Comment, position: 0 })
    );
    assert_eq!(strict.position(), 0);
    let mut lenient = Tokenizer::new(&input, true);
    assert_eq!(lenient.next_token(false), Ok(Token::new("comment", "/* abc", Some(0), Some(5))));
    assert!(lenient.end_of_file());
    assert_eq!(lenient.position(), 6);

    let later = Input::new("a /* b");
    let mut strict = Tokenizer::new(&later, false);
    strict.next_token(false).unwrap();
    strict.next_token(false).unwrap();
    assert_eq!(
        strict.next_token(false),
        Err(UnclosedConstruct { construct: Construct::Comment, position: 2 })
    );
    assert_eq!(strict.next_token(true), Ok(Token::new("comment", "/* b", Some(2), Some(5))));
    assert!(strict.end_of_file());
    // the opening slash does not close the comment
    assert_eq!(tokens_of("/*/", true), vec![Token::new("comment", "/*/", Some(0), Some(2))]);
    assert_eq!(tokens_of("/*", true), vec![Token::new("comment", "/*", Some(0), Some(1))]);
}

#[test]
fn words_end_at_delimiters() {
    for (css, rest) in [
        ("ab cd", "space"),
        ("ab\tcd", "space"),
        ("ab\ncd", "space"),
        ("ab\rcd", "space"),
        ("ab\u{c}cd", "space"),
        ("ab!cd", "word"),
        ("ab\"cd\"", "string"),
        ("ab#cd", "word"),
        ("ab'cd'", "string"),
        ("ab(cd)", "brackets"),
        ("ab)", ")"),
        ("ab:", ":"),
        ("ab;", ";"),
        ("ab@cd", "at-word"),
        ("ab[", "["),
        ("ab\\cd", "word"),
        ("ab]", "]"),
        ("ab{", "{"),
        ("ab}", "}"),
        ("ab/*cd*/", "comment"),
    ] {
        let tokens = tokens_of(css, false);
        assert_eq!(tokens[0], Token::new("word", "ab", Some(0), Some(1)), "for {:?}", css);
        assert_eq!(tokens[1].0, rest, "for {:?}", css);
    }
    assert_eq!(
        tokens_of("a-b_c.d,e*f/g=h%i", false),
        vec![Token::new("word", "a-b_c.d,e*f/g=h%i", Some(0), Some(16))]
    );
    assert_eq!(
        tokens_of("!important", false),
        vec![Token::new("word", "!important", Some(0), Some(9))]
    );
    assert_eq!(
        tokens_of("#fff#", false),
        vec![
            Token::new("word", "#fff", Some(0), Some(3)),
            Token::new("word", "#", Some(4), Some(4)),
        ]
    );
}

#[test]
fn slash_before_a_delimiter_is_left_out_of_the_word() {
    assert_eq!(
        tokens_of("a/ b", false),
        vec![
            Token::new("word", "a", Some(0), Some(0)),
            Token::new("word", "/", Some(1), Some(1)),
            Token::new("space", " ", None, None),
            Token::new("word", "b", Some(3), Some(3)),
        ]
    );
    assert_eq!(
        tokens_of("a//;", false),
        vec![
            Token::new("word", "a/", Some(0), Some(1)),
            Token::new("word", "/", Some(2), Some(2)),
            Token::new(";", ";", Some(3), None),
        ]
    );
    // a slash at the end of the text stays in the word
    assert_eq!(tokens_of("a/", false), vec![Token::new("word", "a/", Some(0), Some(1))]);
    // before a comment nothing is left out
    assert_eq!(
        tokens_of("a//**/", false),
        vec![
            Token::new("word", "a/", Some(0), Some(1)),
            Token::new("comment", "/**/", Some(2), Some(5)),
        ]
    );
    // a word that is the slash alone is kept
    assert_eq!(
        tokens_of("a / b", false),
        vec![
            Token::new("word", "a", Some(0), Some(0)),
            Token::new("space", " ", None, None),
            Token::new("word", "/", Some(2), Some(2)),
            Token::new("space", " ", None, None),
            Token::new("word", "b", Some(4), Some(4)),
        ]
    );
    assert_eq!(
        tokens_of("/)", false),
        vec![Token::new("word", "/", Some(0), Some(0)), Token::new(")", ")", Some(1), None)]
    );
}

#[test]
fn offsets_count_characters() {
    assert_eq!(
        tokens_of("é😀{ü:'ñ'}/*…*/", false),
        vec![
            Token::new("word", "é😀", Some(0), Some(1)),
            Token::new("{", "{", Some(2), None),
            Token::new("word", "ü", Some(3), Some(3)),
            Token::new(":", ":", Some(4), None),
            Token::new("string", "'ñ'", Some(5), Some(7)),
            Token::new("}", "}", Some(8), None),
            Token::new("comment", "/*…*/", Some(9), Some(13)),
        ]
    );
    let input = Input::new("é😀{");
    let mut tokenizer = Tokenizer::new(&input, false);
    tokenizer.next_token(false).unwrap();
    assert_eq!(tokenizer.position(), 2);
}

#[test]
fn nul_is_a_word_character() {
    assert_eq!(
        tokens_of("a\0b \0", false),
        vec![
            Token::new("word", "a\0b", Some(0), Some(2)),
            Token::new("space", " ", None, None),
            Token::new("word", "\0", Some(4), Some(4)),
        ]
    );
}
