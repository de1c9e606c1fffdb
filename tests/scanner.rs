use bfvm::token::{scan, LexError, Token, TokenKind, Tokenizer};

#[test]
fn read_from_string() {
    let data = String::from("+-[]<>");
    let mut tokenizer = Tokenizer::read(&data);
    let mut count = 0;
    while let Some(token) = tokenizer.next() {
        assert!(token.is_ok(), "Could not read token");
        count += 1;
    }
    assert_eq!(count, 6);
}

#[test]
fn token_conversion() {
    let chars = String::from("+-[]<>.,");
    let exp_tokens = [
        Token { row: 1, col: 1, kind: TokenKind::Plus },
        Token { row: 1, col: 2, kind: TokenKind::Minus },
        Token { row: 1, col: 3, kind: TokenKind::LeftBracket },
        Token { row: 1, col: 4, kind: TokenKind::RightBracket },
        Token { row: 1, col: 5, kind: TokenKind::LeftBrace },
        Token { row: 1, col: 6, kind: TokenKind::RightBrace },
        Token { row: 1, col: 7, kind: TokenKind::Dot },
        Token { row: 1, col: 8, kind: TokenKind::Comma },
    ];
    assert_eq!(chars.len(), exp_tokens.len(), "Ill formed test: arrays don't match!");
    let mut tokenizer = Tokenizer::read(&chars);
    let mut i = 0;
    while let Some(token) = tokenizer.next() {
        let token = token.expect("Could not convert token");
        assert_eq!(token, exp_tokens[i]);
        i += 1;
    }
    assert_eq!(i, exp_tokens.len());
}

#[test]
fn scan_yields_eight_kinds_in_order() {
    let tokens = scan("+-[]<>.,").unwrap();
    let kinds: Vec<char> = tokens.iter().map(|t| t.kind().to_char()).collect();
    assert_eq!(kinds, vec!['+', '-', '[', ']', '<', '>', '.', ',']);
    for (i, t) in tokens.iter().enumerate() {
        assert_eq!(t.row(), 1);
        assert_eq!(t.col(), i + 1);
    }
}

#[test]
fn scan_skips_whitespace_and_tracks_rows() {
    let tokens = scan("+ +\n  -\n\t>").unwrap();
    let positions: Vec<(usize, usize)> = tokens.iter().map(|t| (t.row(), t.col())).collect();
    assert_eq!(positions, vec![(1, 1), (1, 3), (2, 3), (3, 2)]);
}

#[test]
fn scan_skips_comment_lines() {
    let tokens = scan("# a comment with + and x\n+\n   # indented comment ]\n-").unwrap();
    assert_eq!(tokens, vec![
        Token { kind: TokenKind::Plus, row: 2, col: 1 },
        Token { kind: TokenKind::Minus, row: 4, col: 1 },
    ]);
}

#[test]
fn scan_reports_unknown_character() {
    assert_eq!(scan("++\n+x"), Err(LexError { character: 'x', row: 2, col: 2 }));
    assert_eq!(scan("+#"), Err(LexError { character: '#', row: 1, col: 2 }));
}

#[test]
fn scan_of_empty_source_is_empty() {
    assert_eq!(scan(""), Ok(vec![]));
    assert_eq!(scan("  \n\n# only a comment"), Ok(vec![]));
}

#[test]
fn tokenizer_goes_on_after_an_error() {
    let mut tokenizer = Tokenizer::read("a+");
    assert_eq!(tokenizer.next(), Some(Err(LexError { character: 'a', row: 1, col: 1 })));
    assert_eq!(tokenizer.next(), Some(Ok(Token { kind: TokenKind::Plus, row: 1, col: 2 })));
    assert_eq!(tokenizer.next(), None);
}

#[test]
fn token_kind_char_round_trip() {
    for c in "+-<>.,[]".chars() {
        let kind = TokenKind::from_char(c).unwrap();
        assert_eq!(kind.to_char(), c);
    }
    assert_eq!(TokenKind::from_char('a'), None);
    assert_eq!(Token::from_char('[', 3, 4), Ok(Token { kind: TokenKind::LeftBracket, row: 3, col: 4 }));
    assert_eq!(Token::from_char('?', 3, 4), Err(LexError { character: '?', row: 3, col: 4 }));
}

#[test]
fn unicode_whitespace_is_skipped() {
    let tokens = scan("\u{a0}+\u{3000}-").unwrap();
    assert_eq!(tokens.len(), 2);
    assert_eq!(tokens[1].col(), 4);
}
