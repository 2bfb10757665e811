use arma_config::render::render;
use arma_config::tokenizer::tokenize;
use arma_config::tokens::{Keyword, Token, Whitespace};

fn token_list(source: &str) -> Vec<Token> {
    let tokens = tokenize(source, "test_word").unwrap();
    let mut out = Vec::new();
    let mut i = 0;
    while i < tokens.len() {
        out.push(tokens.get(i).token().clone());
        i += 1;
    }
    out
}

#[test]
fn word() {
    {
        let token_names = token_list("a word");
        assert_eq!(
            token_names,
            vec![
                Token::Word("a".to_string()),
                Token::Whitespace(Whitespace::Space),
                Token::Word("word".to_string()),
                Token::EOI,
            ]
        );
    }
    {
        let token_names = token_list("a_word");
        assert_eq!(
            token_names,
            vec![
                Token::Word("a".to_string()),
                Token::Underscore,
                Token::Word("word".to_string()),
                Token::EOI,
            ]
        );
    }
    {
        let token_names = token_list("a2word");
        assert_eq!(token_names, vec![Token::Word("a2word".to_string()), Token::EOI,]);
    }
    {
        let token_names = token_list("2word");
        assert_eq!(
            token_names,
            vec![Token::Digit(2), Token::Word("word".to_string()), Token::EOI,]
        );
    }
}

#[test]
fn keywords_lex_as_keywords() {
    assert_eq!(
        token_list("class delete enum"),
        vec![
            Token::Keyword(Keyword::Class),
            Token::Whitespace(Whitespace::Space),
            Token::Keyword(Keyword::Delete),
            Token::Whitespace(Whitespace::Space),
            Token::Keyword(Keyword::Enum),
            Token::EOI,
        ]
    );
}

#[test]
fn punctuation_and_chars() {
    assert_eq!(
        token_list("{}=;@"),
        vec![
            Token::LeftBrace,
            Token::RightBrace,
            Token::Assignment,
            Token::Semicolon,
            Token::Char('@'),
            Token::EOI,
        ]
    );
}

#[test]
fn tokenize_then_render_round_trips() {
    let source = "class Foo {\n\tvalue = 12.5;\n\tname_x = \"hi\";\n};\n";
    let tokens = tokenize(source, "p").unwrap();
    let mut owned = Vec::new();
    let mut i = 0;
    while i < tokens.len() {
        owned.push(tokens.get(i).clone());
        i += 1;
    }
    assert_eq!(render(&owned).export(), source);
}

#[test]
fn comments_are_skipped() {
    let source = "a // gone\nb /* also gone */ c\n";
    let tokens = tokenize(source, "p").unwrap();
    let mut owned = Vec::new();
    let mut i = 0;
    while i < tokens.len() {
        owned.push(tokens.get(i).clone());
        i += 1;
    }
    assert_eq!(render(&owned).export(), "a \nb  c\n");
}

#[test]
fn unterminated_block_comment_errors() {
    let err = tokenize("ok /* never closed", "p").unwrap_err();
    assert_eq!(err.path(), "p");
    assert_eq!(err.message(), "unterminated block comment");
}

#[test]
fn positions_follow_lines_and_columns() {
    let tokens = tokenize("ab\ncd", "p").unwrap();
    assert_eq!(tokens.get(0).start(), (0, (1, 1)));
    assert_eq!(tokens.get(0).end(), (2, (1, 3)));
    assert_eq!(tokens.get(1).start(), (2, (1, 3)));
    assert_eq!(tokens.get(1).end(), (3, (2, 1)));
    assert_eq!(tokens.get(2).start(), (3, (2, 1)));
    assert_eq!(tokens.get(2).end(), (5, (2, 3)));
    assert_eq!(tokens.path(), "p");
    assert_eq!(tokens.source(), "ab\ncd");
    assert!(!tokens.is_empty());
}

#[test]
fn token_sizes_and_text() {
    assert_eq!(Token::from_word("class".to_string()), Token::Keyword(Keyword::Class));
    assert_eq!(Token::from_word("delete".to_string()), Token::Keyword(Keyword::Delete));
    assert_eq!(Token::from_word("enum".to_string()), Token::Keyword(Keyword::Enum));
    assert_eq!(Token::from_word("other".to_string()), Token::Word("other".to_string()));
    assert_eq!(Token::Keyword(Keyword::Class).len(), 5);
    assert_eq!(Token::Keyword(Keyword::Delete).size(), 6);
    assert_eq!(Keyword::Enum.len(), 4);
    assert_eq!(Keyword::Enum.size(), 4);
    assert!(!Keyword::Enum.is_empty());
    assert_eq!(Token::Word("abc".to_string()).len(), 3);
    assert_eq!(Token::EOI.size(), 0);
    assert!(Token::EOI.is_empty());
    assert!(!Token::Dash.is_empty());
    assert_eq!(Token::Dash.size(), 1);
    assert!(Token::Whitespace(Whitespace::Tab).is_whitespace());
    assert!(!Token::Newline.is_whitespace());
    assert_eq!(Token::Keyword(Keyword::Class).to_source(), "class");
    assert_eq!(Token::Digit(7).to_source(), "7");
    assert_eq!(Token::Escape.to_source(), "\\");
    assert_eq!(Token::Newline.to_source(), "\n");
    assert_eq!(Token::Whitespace(Whitespace::Tab).to_source(), "\t");
    assert_eq!(Token::Char('@').to_source(), "@");
    assert_eq!(Token::EOI.to_source(), "");
}
