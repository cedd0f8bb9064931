use tokenizer::{Keyword, Lexer, ScanError, Token};

fn lexer_of(input: &str) -> Lexer {
    Lexer::new(&String::from(input))
}

fn pull_all(input: &str) -> Vec<Result<Token, ScanError>> {
    let mut lexer = lexer_of(input);
    let mut items = Vec::new();
    while let Some(item) = lexer.next_result() {
        items.push(item);
    }
    items
}

fn first(input: &str) -> Result<Token, ScanError> {
    lexer_of(input).get_token()
}

#[test]
fn one_res() {
    let test_input = "\
LET foobar = 123
";
    let mut lexer: Lexer = Lexer::new(&String::from(test_input));

    let mut result = String::from("");
    while let Some(c) = lexer.next() {
        result.push(c);
    }

    assert_eq!(test_input, result);
}

#[test]
fn test_read_token() {
    let input = "+- */ > >= = != 105+123.42\n123 456\n if ifn ";
    let mut lexer = Lexer::new(&String::from(input));

    let mut res_tokens = Vec::new();
    while lexer.peek().is_some() {
        if let Ok(t) = lexer.get_token() {
            res_tokens.push(t)
        }
        lexer.next_char();
    }

    let tokens: Vec<Token> = vec![
        Token::PLUS,
        Token::MINUS,
        Token::ASTERISK,
        Token::SLASH,
        Token::GT,
        Token::GTEQ,
        Token::EQ,
        Token::NOTEQ,
        Token::NUMBER("105".to_string()),
        Token::PLUS,
        Token::NUMBER("123.42".to_string()),
        Token::NEWLINE,
        Token::NUMBER("123".to_string()),
        Token::NUMBER("456".to_string()),
        Token::NEWLINE,
        Token::KEYWORD(Keyword::IF),
        Token::IDENTIFIER("ifn".to_string()),
    ];

    assert_eq!(tokens, res_tokens);
}

#[test]
fn test_comment() {
    let input = "\
+
# something here
-
";
    let mut lexer = Lexer::new(&String::from(input));
    let mut res = Vec::new();
    while lexer.peek().is_some() {
        if let Ok(t) = lexer.get_token() {
            res.push(t);
        }
        lexer.next_char();
    }

    assert_eq!(
        res,
        vec![Token::PLUS, Token::NEWLINE, Token::NEWLINE, Token::MINUS]
    )
}

#[test]
fn test_if_then() {
    let input = "IF+-123 foo*THEN/";
    let mut lexer = Lexer::new(&String::from(input));

    let mut token = lexer.get_token();
    while lexer.peek().is_some() {
        println!("{:?}", token);
        token = lexer.get_token();
        lexer.next_char();
    }
}

#[test]
fn test_read_string() {
    let input = r#""some string""#;
    println!("{:?}", input);
    let mut lexer = Lexer::new(&String::from(input));

    let mut res = Vec::new();
    while lexer.peek().is_some() {
        if let Ok(t) = lexer.get_token() {
            res.push(t);
        }
        lexer.next_char();
    }
    println!("{:?}", res);
    assert_eq!(res, vec![Token::STRING("some string".to_string())]);
}

#[test]
fn token_texts_and_layout_rebuild_the_input() {
    let input = "IF x1 >= 12.5 THEN # note\n\tGOTO \"a b\"\r\n";
    let mut lexer = lexer_of(input);
    let mut texts = Vec::new();
    loop {
        let t = lexer.get_token().expect("no scan error");
        if t == Token::EOF {
            break;
        }
        texts.push(t);
        lexer.next_char();
    }
    assert_eq!(
        texts,
        vec![
            Token::KEYWORD(Keyword::IF),
            Token::IDENTIFIER("x1".to_string()),
            Token::GTEQ,
            Token::NUMBER("12.5".to_string()),
            Token::KEYWORD(Keyword::THEN),
            Token::NEWLINE,
            Token::KEYWORD(Keyword::GOTO),
            Token::STRING("a b".to_string()),
            Token::NEWLINE,
        ]
    );
}

#[test]
fn peek_leaves_the_scanner_alone() {
    let mut lexer = lexer_of("ab");
    assert_eq!(lexer.peek(), Some('b'));
    assert_eq!(lexer.peek(), Some('b'));
    assert_eq!(lexer.cur_char(), Some('a'));
    lexer.next_char();
    assert_eq!(lexer.peek(), None);
    assert_eq!(lexer.cur_char(), Some('b'));
    lexer.next_char();
    assert_eq!(lexer.peek(), None);
    assert_eq!(lexer.cur_char(), None);
}

#[test]
fn advancing_past_the_end_stays_at_the_end() {
    let mut lexer = lexer_of("x");
    for _ in 0..5 {
        lexer.next_char();
        assert_eq!(lexer.cur_char(), None);
        assert_eq!(lexer.peek(), None);
    }
    assert_eq!(lexer.get_token(), Ok(Token::EOF));
    assert_eq!(lexer.next(), None);
}

#[test]
fn numbers_keep_their_text() {
    assert_eq!(first("123"), Ok(Token::NUMBER("123".to_string())));
    assert_eq!(first("123.42"), Ok(Token::NUMBER("123.42".to_string())));
    assert_eq!(first("0.5+"), Ok(Token::NUMBER("0.5".to_string())));
    assert_eq!(first("123."), Err(ScanError::MalformedNumber));
    assert_eq!(first("7.x"), Err(ScanError::MalformedNumber));
}

#[test]
fn number_scan_leaves_cursor_on_last_digit() {
    let mut lexer = lexer_of("12.34.5");
    assert_eq!(lexer.get_token(), Ok(Token::NUMBER("12.34".to_string())));
    assert_eq!(lexer.cur_char(), Some('4'));
    lexer.next_char();
    assert_eq!(lexer.get_token(), Err(ScanError::UnexpectedCharacter('.')));
}

#[test]
fn keywords_ignore_case() {
    assert_eq!(first("IF"), Ok(Token::KEYWORD(Keyword::IF)));
    assert_eq!(first("if"), Ok(Token::KEYWORD(Keyword::IF)));
    assert_eq!(first("If"), Ok(Token::KEYWORD(Keyword::IF)));
    assert_eq!(first("ifn"), Ok(Token::IDENTIFIER("ifn".to_string())));
    assert_eq!(first("EndIf"), Ok(Token::KEYWORD(Keyword::ENDIF)));
    assert_eq!(first("then"), Ok(Token::KEYWORD(Keyword::THEN)));
    assert_eq!(first("GoTo"), Ok(Token::KEYWORD(Keyword::GOTO)));
    assert_eq!(first("Foo9"), Ok(Token::IDENTIFIER("Foo9".to_string())));
}

#[test]
fn keyword_table_lookup() {
    assert_eq!(Keyword::from_string(&"gOTO".to_string()), Some(Keyword::GOTO));
    assert_eq!(Keyword::from_string(&"ENDIF".to_string()), Some(Keyword::ENDIF));
    assert_eq!(Keyword::from_string(&"end".to_string()), None);
    assert_eq!(Keyword::from_string(&"".to_string()), None);
    assert_eq!(Keyword::from_string(&"thenn".to_string()), None);
}

#[test]
fn comment_keeps_its_newline() {
    assert_eq!(
        pull_all("+\n# something here\n-\n"),
        vec![
            Ok(Token::PLUS),
            Ok(Token::NEWLINE),
            Ok(Token::NEWLINE),
            Ok(Token::MINUS)
        ]
    );
    assert_eq!(first("# only a comment"), Ok(Token::EOF));
}

#[test]
fn string_literal_is_one_token() {
    assert_eq!(
        pull_all("\"some string\""),
        vec![Ok(Token::STRING("some string".to_string()))]
    );
    assert_eq!(first("\"\""), Ok(Token::STRING(String::new())));
    assert_eq!(first("\"héllo\nwörld\""), Ok(Token::STRING("héllo\nwörld".to_string())));
}

#[test]
fn unterminated_string_is_an_error() {
    assert_eq!(first("\"abc"), Err(ScanError::UnterminatedString));
    assert_eq!(first("\""), Err(ScanError::UnterminatedString));
}

#[test]
fn operators_are_told_apart() {
    assert_eq!(first(">"), Ok(Token::GT));
    assert_eq!(first(">="), Ok(Token::GTEQ));
    assert_eq!(first("="), Ok(Token::EQ));
    assert_eq!(first("=="), Ok(Token::EQEQ));
    assert_eq!(first("!="), Ok(Token::NOTEQ));
    assert_eq!(first("!"), Err(ScanError::UnexpectedCharacter('!')));
    assert_eq!(first("<"), Ok(Token::LT));
    assert_eq!(first("<="), Ok(Token::LTEQ));
    assert_eq!(first("/"), Ok(Token::SLASH));
    assert_eq!(first("*"), Ok(Token::ASTERISK));
}

#[test]
fn unknown_characters_are_errors() {
    assert_eq!(first("@"), Err(ScanError::UnexpectedCharacter('@')));
    assert_eq!(first(" é"), Err(ScanError::UnexpectedCharacter('é')));
}

#[test]
fn empty_input_gives_end_marker() {
    assert_eq!(first(""), Ok(Token::EOF));
    assert_eq!(pull_all(""), Vec::new());
    assert_eq!(first(" \t\r "), Ok(Token::EOF));
}

#[test]
fn iteration_stops_before_the_last_character() {
    assert_eq!(pull_all("+-"), vec![Ok(Token::PLUS)]);
    assert_eq!(pull_all("x"), Vec::new());
    assert_eq!(
        pull_all("ab 12 "),
        vec![
            Ok(Token::IDENTIFIER("ab".to_string())),
            Ok(Token::NUMBER("12".to_string()))
        ]
    );
}

#[test]
fn characters_are_counted_not_bytes() {
    let mut lexer = lexer_of("é=ü");
    assert_eq!(lexer.next(), Some('é'));
    assert_eq!(lexer.get_token(), Ok(Token::EQ));
    lexer.next_char();
    assert_eq!(lexer.cur_char(), Some('ü'));
    assert_eq!(lexer.peek(), None);
}
