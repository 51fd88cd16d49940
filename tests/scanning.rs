use lexer_core::{Lexer, Token, TokenKind};

fn scan(src: &str) -> Vec<Token> {
    let mut lexer = Lexer::new(src.to_string());
    lexer.lex()
}

fn kinds(tokens: &[Token]) -> Vec<TokenKind> {
    tokens.iter().map(|t| t.kind).collect()
}

fn joined(tokens: &[Token]) -> String {
    tokens.iter().map(|t| t.lexeme.as_str()).collect()
}

#[test]
fn words_and_single_spaces_round_trip() {
    let src = "var x fn elif hello_1 true abc";
    let tokens = scan(src);
    assert_eq!(joined(&tokens), src);
    assert_eq!(
        kinds(&tokens),
        vec![
            TokenKind::Keyword,
            TokenKind::Space,
            TokenKind::Identifier,
            TokenKind::Space,
            TokenKind::Keyword,
            TokenKind::Space,
            TokenKind::Keyword,
            TokenKind::Space,
            TokenKind::Identifier,
            TokenKind::Space,
            TokenKind::Boolean,
            TokenKind::Space,
            TokenKind::Identifier,
        ]
    );
}

#[test]
fn mixed_source_round_trips() {
    let src = "const a1 = b + 2;\n# note\n\tif(x){y}@";
    let tokens = scan(src);
    assert_eq!(joined(&tokens), src);
    let total: usize = tokens.iter().map(|t| t.end_position - t.start_position).sum();
    assert_eq!(total, src.chars().count());
}

#[test]
fn each_keyword_followed_by_separator() {
    for kw in ["var", "const", "fn", "if", "else", "elif"] {
        let src = format!("{};", kw);
        let tokens = scan(&src);
        assert_eq!(tokens.len(), 2);
        assert_eq!(tokens[0].kind, TokenKind::Keyword);
        assert_eq!(tokens[0].lexeme, kw);
        assert_eq!(tokens[0].start_position, 0);
        assert_eq!(tokens[0].end_position, kw.len());
        assert_eq!(tokens[1].kind, TokenKind::Separator);
    }
}

#[test]
fn each_keyword_alone() {
    for kw in ["var", "const", "fn", "if", "else", "elif"] {
        let tokens = scan(kw);
        assert_eq!(tokens.len(), 1);
        assert_eq!(tokens[0].kind, TokenKind::Keyword);
        assert_eq!(tokens[0].lexeme, kw);
    }
}

#[test]
fn keyword_prefix_of_identifier_is_identifier() {
    let tokens = scan("variable");
    assert_eq!(tokens.len(), 1);
    assert_eq!(tokens[0].kind, TokenKind::Identifier);
    assert_eq!(tokens[0].lexeme, "variable");
}

#[test]
fn keyword_then_underscore_splits_on_letters() {
    let tokens = scan("var_x");
    assert_eq!(kinds(&tokens), vec![TokenKind::Keyword, TokenKind::Unknown, TokenKind::Identifier]);
    assert_eq!(tokens[0].lexeme, "var");
    assert_eq!(tokens[1].lexeme, "_");
    assert_eq!(tokens[2].lexeme, "x");
}

#[test]
fn keyword_then_digit_is_keyword_then_unknown() {
    let tokens = scan("var1");
    assert_eq!(kinds(&tokens), vec![TokenKind::Keyword, TokenKind::Unknown]);
    assert_eq!(tokens[0].lexeme, "var");
    assert_eq!(tokens[1].lexeme, "1");
}

#[test]
fn true_is_boolean() {
    let tokens = scan("true");
    assert_eq!(tokens.len(), 1);
    assert_eq!(tokens[0].kind, TokenKind::Boolean);
    assert_eq!(tokens[0].lexeme, "true");
    assert_eq!((tokens[0].start_position, tokens[0].end_position), (0, 4));
}

#[test]
fn false_is_boolean() {
    let tokens = scan("false");
    assert_eq!(tokens.len(), 1);
    assert_eq!(tokens[0].kind, TokenKind::Boolean);
    assert_eq!(tokens[0].lexeme, "false");
    assert_eq!((tokens[0].start_position, tokens[0].end_position), (0, 5));
}

#[test]
fn operators_use_maximal_munch() {
    let tokens = scan("+-*");
    assert_eq!(tokens.len(), 1);
    assert_eq!(tokens[0].kind, TokenKind::Operator);
    assert_eq!(tokens[0].lexeme, "+-*");
    assert_eq!((tokens[0].start_position, tokens[0].end_position), (0, 3));
}

#[test]
fn all_operator_characters() {
    let tokens = scan("+-/=*%");
    assert_eq!(kinds(&tokens), vec![TokenKind::Operator]);
    assert_eq!(tokens[0].lexeme, "+-/=*%");
}

#[test]
fn separators_are_one_character_each() {
    let src = "{}[]<>();,";
    let tokens = scan(src);
    assert_eq!(tokens.len(), 10);
    for (i, t) in tokens.iter().enumerate() {
        assert_eq!(t.kind, TokenKind::Separator);
        assert_eq!(t.start_position, i);
        assert_eq!(t.end_position, i + 1);
    }
    assert_eq!(tokens[4].lexeme, "<");
}

#[test]
fn whitespace_run_is_one_token() {
    let tokens = scan(" \t  x");
    assert_eq!(kinds(&tokens), vec![TokenKind::Space, TokenKind::Identifier]);
    assert_eq!(tokens[0].lexeme, " \t  ");
}

#[test]
fn newline_is_not_whitespace() {
    let tokens = scan("\n");
    assert_eq!(kinds(&tokens), vec![TokenKind::Unknown]);
    assert_eq!(tokens[0].lexeme, "\n");
}

#[test]
fn comment_stops_before_newline() {
    let tokens = scan("#comment to end\nvar");
    assert_eq!(tokens[0].kind, TokenKind::SingleLineComment);
    assert_eq!(tokens[0].lexeme, "#comment to end");
    assert_eq!((tokens[0].start_position, tokens[0].end_position), (0, 15));
    assert_eq!(kinds(&tokens), vec![TokenKind::SingleLineComment, TokenKind::Unknown, TokenKind::Keyword]);
    assert_eq!(tokens[2].lexeme, "var");
    assert_eq!((tokens[2].start_position, tokens[2].end_position), (16, 19));
}

#[test]
fn comment_at_end_of_source() {
    let tokens = scan("x #tail");
    assert_eq!(kinds(&tokens), vec![TokenKind::Identifier, TokenKind::Space, TokenKind::SingleLineComment]);
    assert_eq!(tokens[2].lexeme, "#tail");
}

#[test]
fn unknown_characters_are_skipped_one_by_one() {
    let tokens = scan("@@@");
    assert_eq!(tokens.len(), 3);
    for (i, t) in tokens.iter().enumerate() {
        assert_eq!(t.kind, TokenKind::Unknown);
        assert_eq!(t.lexeme, "@");
        assert_eq!(t.start_position, i);
        assert_eq!(t.end_position - t.start_position, 1);
    }
}

#[test]
fn empty_source_has_no_tokens() {
    let tokens = scan("");
    assert!(tokens.is_empty());
}

#[test]
fn non_ascii_letter_is_unknown() {
    let tokens = scan("é");
    assert_eq!(kinds(&tokens), vec![TokenKind::Unknown]);
    assert_eq!(tokens[0].lexeme, "é");
    assert_eq!(tokens[0].end_position, 1);
}

#[test]
fn lex_next_reports_unknown_as_err() {
    let mut lexer = Lexer::new("$ab".to_string());
    let first = lexer.lex_next();
    match first {
        Err(t) => {
            assert_eq!(t.kind, TokenKind::Unknown);
            assert_eq!(t.lexeme, "$");
            assert_eq!((t.start_position, t.end_position), (0, 1));
        }
        Ok(_) => panic!("expected an unknown character"),
    }
    let second = lexer.lex_next();
    match second {
        Ok(t) => {
            assert_eq!(t.kind, TokenKind::Identifier);
            assert_eq!(t.lexeme, "ab");
        }
        Err(_) => panic!("expected an identifier"),
    }
    assert!(lexer.at_end());
}

#[test]
fn cursor_tracks_line_and_column() {
    let mut lexer = Lexer::new("ab\ncd e".to_string());
    assert_eq!((lexer.position(), lexer.line(), lexer.column()), (0, 1, 0));
    let _ = lexer.lex_next();
    assert_eq!((lexer.position(), lexer.line(), lexer.column()), (2, 1, 2));
    let _ = lexer.lex_next();
    assert_eq!((lexer.position(), lexer.line(), lexer.column()), (3, 2, 0));
    let _ = lexer.lex_next();
    assert_eq!((lexer.position(), lexer.line(), lexer.column()), (5, 2, 2));
}

#[test]
fn rejected_keyword_leaves_cursor_for_identifier() {
    let mut lexer = Lexer::new("hello".to_string());
    match lexer.lex_next() {
        Ok(t) => {
            assert_eq!(t.kind, TokenKind::Identifier);
            assert_eq!(t.lexeme, "hello");
            assert_eq!((t.start_position, t.end_position), (0, 5));
        }
        Err(_) => panic!("expected an identifier"),
    }
    assert_eq!(lexer.column(), 5);
}

#[test]
fn two_lexers_agree() {
    let src = "fn f(a, b) { var c = a*b; # done\n} ~";
    let a = scan(src);
    let b = scan(src);
    assert_eq!(a, b);
    assert!(!a.is_empty());
}

#[test]
fn token_new_keeps_fields() {
    let t = Token::new(TokenKind::Operator, 3, 5, "+=".to_string());
    assert_eq!(t.kind, TokenKind::Operator);
    assert_eq!(t.start_position, 3);
    assert_eq!(t.end_position, 5);
    assert_eq!(t.lexeme, "+=");
}
