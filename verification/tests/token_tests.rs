use newt::tokens::{tokenize, StrTokenSource, Token, TokenKind};

fn kinds(tokens: &[Token]) -> Vec<TokenKind> {
    tokens.iter().map(|t| t.token_kind()).collect()
}

#[test]
fn tokenize_reads_operators_one_character_at_a_time() {
    assert_eq!(
        kinds(&tokenize("+-/")),
        vec![TokenKind::Plus, TokenKind::Minus, TokenKind::Slash]
    );
}

#[test]
fn tokenize_reads_keywords_identifiers_and_literals() {
    let tokens = tokenize("let x = 42;");

    assert_eq!(
        kinds(&tokens),
        vec![
            TokenKind::Let,
            TokenKind::WhiteSpace,
            TokenKind::Identifier,
            TokenKind::WhiteSpace,
            TokenKind::Equals,
            TokenKind::WhiteSpace,
            TokenKind::IntegerLiteral,
            TokenKind::SemiColon,
        ]
    );
    assert_eq!(tokens[6].offset(), 8);
    assert_eq!(tokens[6].lexeme_length(), 2);
}

#[test]
fn tokenize_reads_two_character_comparisons() {
    assert_eq!(
        kinds(&tokenize("==<=>=<>=")),
        vec![
            TokenKind::EqualsEquals,
            TokenKind::LessEquals,
            TokenKind::GreaterEquals,
            TokenKind::Less,
            TokenKind::GreaterEquals,
        ]
    );
}

#[test]
fn tokenize_reads_floats_strings_glyphs_and_comments() {
    let tokens = tokenize("3.14 \"hi\" 'c' // note\n/* block */");

    assert_eq!(
        kinds(&tokens),
        vec![
            TokenKind::FloatLiteral,
            TokenKind::WhiteSpace,
            TokenKind::StringLiteral,
            TokenKind::WhiteSpace,
            TokenKind::GlyphLiteral,
            TokenKind::WhiteSpace,
            TokenKind::CommentLine,
            TokenKind::WhiteSpace,
            TokenKind::CommentBlock,
        ]
    );
    assert_eq!(tokens[0].lexeme_length(), 4);
    assert_eq!(tokens[2].lexeme_length(), 4);
    assert_eq!(tokens[6].lexeme_length(), 7);
    assert_eq!(tokens[8].lexeme_length(), 11);
}

#[test]
fn tokenize_marks_unknown_characters_as_errors() {
    assert_eq!(kinds(&tokenize("#")), vec![TokenKind::Error]);
    assert_eq!(kinds(&tokenize("\"open")), vec![TokenKind::Error]);
}

#[test]
fn tokens_cover_the_source_one_after_another() {
    let source = "fn f(a, b) { return a.b + 1.5f; } // done";
    let tokens = tokenize(source);
    let mut next = 0;

    for t in tokens.iter() {
        assert!(t.lexeme_length() >= 1);
        assert_eq!(t.offset(), next);
        next = t.offset() + t.lexeme_length();
    }
    assert_eq!(next, source.chars().count());
}

#[test]
fn token_source_reads_end_of_file_past_the_last_token() {
    let source = StrTokenSource::new(tokenize("a b"));

    assert_eq!(source.len(), 3);
    assert_eq!(source.token(0).token_kind(), TokenKind::Identifier);
    assert_eq!(source.token(2).offset(), 2);
    assert_eq!(source.token(3).token_kind(), TokenKind::EndOfFile);
    assert_eq!(source.token(300).token_kind(), TokenKind::EndOfFile);
    assert_eq!(source.token(300).lexeme_length(), 0);
}

#[test]
fn trivia_kinds_are_trivia() {
    assert!(TokenKind::WhiteSpace.is_trivia());
    assert!(TokenKind::CommentLine.is_trivia());
    assert!(TokenKind::CommentBlock.is_trivia());
    assert!(TokenKind::TombStone.is_trivia());
    assert!(!TokenKind::EndOfFile.is_trivia());
    assert!(!TokenKind::Identifier.is_trivia());
}
