use newt::gen_syntax::parse::{parse, ParseError, ParseErrorKind, Production};
use newt::gen_syntax::report::{decimal_string, ErrorReport};
use newt::gen_syntax::semantic::validate_semantics;
use newt::gen_syntax::tokens::{tokenize, Token, TokenKind};

fn kinds(tokens: &[Token]) -> Vec<TokenKind> {
    tokens.iter().map(|t| t.kind).collect()
}

#[test]
fn grammar_tokenize_splits_a_rule_and_appends_end_of_file() {
    let tokens = tokenize("Expr => Term;");

    assert_eq!(
        kinds(&tokens),
        vec![
            TokenKind::Identifier,
            TokenKind::Trivia,
            TokenKind::Arrow,
            TokenKind::Trivia,
            TokenKind::Identifier,
            TokenKind::SemiColon,
            TokenKind::EndOfFile,
        ]
    );
    assert_eq!(tokens[0], Token::new(TokenKind::Identifier, 0, 4));
    assert_eq!(tokens[2], Token::new(TokenKind::Arrow, 5, 2));
    assert_eq!(tokens[4], Token::new(TokenKind::Identifier, 8, 4));
    assert_eq!(tokens[6], Token::new(TokenKind::EndOfFile, 13, 0));
}

#[test]
fn grammar_tokenize_of_empty_source_is_end_of_file() {
    assert_eq!(tokenize(""), vec![Token::new(TokenKind::EndOfFile, 0, 0)]);
}

#[test]
fn grammar_tokenize_reads_punctuation_and_quotes() {
    let tokens = tokenize("([])|*+'x'");

    assert_eq!(
        kinds(&tokens),
        vec![
            TokenKind::LeftParenthesis,
            TokenKind::LeftBracket,
            TokenKind::RightBracket,
            TokenKind::RightParenthesis,
            TokenKind::Pipe,
            TokenKind::Star,
            TokenKind::Plus,
            TokenKind::Quoted,
            TokenKind::EndOfFile,
        ]
    );
    assert_eq!(tokens[7], Token::new(TokenKind::Quoted, 7, 3));
}

#[test]
fn grammar_tokenize_reports_errors() {
    let tokens = tokenize("=x 'open");

    assert_eq!(tokens[0], Token::new(TokenKind::Error, 0, 1));
    assert_eq!(tokens[1], Token::new(TokenKind::Identifier, 1, 1));
    assert_eq!(tokens[3], Token::new(TokenKind::Error, 3, 5));
    assert_eq!(tokens[4], Token::new(TokenKind::EndOfFile, 8, 0));
}

#[test]
fn grammar_tokens_cover_the_source_one_after_another() {
    let source = "A => B* | (C D)+ ;\n";
    let tokens = tokenize(source);
    let mut next = 0;

    for t in tokens.iter() {
        assert_eq!(t.offset, next);
        next = t.offset + t.length;
    }
    assert_eq!(next, source.len());
}

#[test]
fn grammar_parse_builds_rules() {
    let parsed = parse(tokenize("A => B;")).unwrap();

    match parsed {
        Production::Root(rules) => {
            assert_eq!(rules.len(), 1);
            match &rules[0] {
                Production::Rule { name, production } => {
                    assert_eq!(*name, Token::new(TokenKind::Identifier, 0, 1));
                    match production.as_ref() {
                        Production::Identifier { rule_name, member_name } => {
                            assert_eq!(*rule_name, Token::new(TokenKind::Identifier, 5, 1));
                            assert_eq!(*member_name, None);
                        }
                        other => panic!("unexpected production {:?}", other),
                    }
                }
                other => panic!("unexpected production {:?}", other),
            }
        }
        other => panic!("unexpected production {:?}", other),
    }
}

#[test]
fn grammar_parse_builds_pipes_sequences_and_operators() {
    let parsed = parse(tokenize("A => B[b] C* | (D)+;")).unwrap();

    let rules = match parsed {
        Production::Root(rules) => rules,
        other => panic!("unexpected production {:?}", other),
    };
    let production = match &rules[0] {
        Production::Rule { name: _, production } => production,
        other => panic!("unexpected production {:?}", other),
    };
    let options = match production.as_ref() {
        Production::Pipe(options) => options,
        other => panic!("unexpected production {:?}", other),
    };
    assert_eq!(options.len(), 2);
    match &options[0] {
        Production::Sequence(items) => {
            assert_eq!(items.len(), 2);
            match &items[0] {
                Production::Identifier { rule_name: _, member_name } => {
                    assert_eq!(*member_name, Some(Token::new(TokenKind::Identifier, 7, 1)));
                }
                other => panic!("unexpected production {:?}", other),
            }
            assert!(matches!(&items[1], Production::Star(_)));
        }
        other => panic!("unexpected production {:?}", other),
    }
    match &options[1] {
        Production::Plus(inner) => assert!(matches!(inner.as_ref(), Production::Grouping(_))),
        other => panic!("unexpected production {:?}", other),
    }
}

#[test]
fn grammar_parse_reports_unexpected_token_and_recovers() {
    let errors = parse(tokenize("A B; C => ;D")).unwrap_err();

    assert_eq!(errors.len(), 2);
    assert_eq!(errors[0].location, Token::new(TokenKind::Identifier, 2, 1));
    assert_eq!(
        errors[0].kind,
        ParseErrorKind::UnexpectedToken { expected: TokenKind::Arrow, actual: TokenKind::Identifier }
    );
    assert_eq!(
        errors[1].kind,
        ParseErrorKind::UnexpectedToken { expected: TokenKind::Arrow, actual: TokenKind::EndOfFile }
    );
}

#[test]
fn grammar_parse_reports_operator_without_operand() {
    let errors = parse(tokenize("A => +;")).unwrap_err();

    assert_eq!(errors.len(), 1);
    assert_eq!(errors[0].location, Token::new(TokenKind::Plus, 5, 1));
    assert_eq!(
        errors[0].kind,
        ParseErrorKind::MissingSyntax { message: "No production sequence for operator" }
    );
}

#[test]
fn grammar_production_iterator_walks_in_preorder() {
    let parsed = parse(tokenize("A => B | C;")).unwrap();
    let mut names = vec![];
    let mut it = parsed.iter();

    while let Some(p) = it.next() {
        let name = match p {
            Production::Root(_) => "root",
            Production::Rule { .. } => "rule",
            Production::Pipe(_) => "pipe",
            Production::Identifier { .. } => "identifier",
            _ => "other",
        };
        names.push(name);
    }
    assert_eq!(names, vec!["root", "rule", "pipe", "identifier", "identifier"]);
}

#[test]
fn grammar_validate_accepts_a_closed_grammar() {
    let source = "A => B; B => 'b';";
    let parsed = parse(tokenize(source)).unwrap();
    let context = validate_semantics(&parsed, source).unwrap();

    let names: Vec<&str> = context.symbols().iter().map(|s| s.name()).collect();
    assert_eq!(names, vec!["A", "B"]);
}

#[test]
fn grammar_validate_reports_undefined_symbols() {
    let source = "A => B;";
    let parsed = parse(tokenize(source)).unwrap();
    let errors = validate_semantics(&parsed, source).unwrap_err();

    assert_eq!(errors.len(), 1);
    assert_eq!(errors[0].location, Token::new(TokenKind::Identifier, 5, 1));
    assert_eq!(errors[0].kind, ParseErrorKind::UndefinedSymbol { symbol: "B".to_string() });
}

#[test]
fn grammar_validate_reports_duplicate_symbols() {
    let source = "A => A; A => A;";
    let parsed = parse(tokenize(source)).unwrap();
    let errors = validate_semantics(&parsed, source).unwrap_err();

    assert_eq!(errors.len(), 1);
    assert_eq!(errors[0].location, Token::new(TokenKind::Identifier, 8, 1));
    assert_eq!(errors[0].kind, ParseErrorKind::DuplicateSymbol { symbol: "A".to_string() });
}

#[test]
fn grammar_validate_reports_ambiguous_pipes() {
    let source = "A => B C | B; B => 'b'; C => 'c';";
    let parsed = parse(tokenize(source)).unwrap();
    let errors = validate_semantics(&parsed, source).unwrap_err();

    assert_eq!(errors.len(), 1);
    assert_eq!(errors[0].location, Token::new(TokenKind::Identifier, 5, 1));
    assert_eq!(errors[0].kind, ParseErrorKind::AmbiguousPipe);
}

#[test]
fn grammar_validate_accepts_a_pipe_option_that_repeats_one_rule() {
    let source = "A => B B | 'x'; B => 'b';";
    let parsed = parse(tokenize(source)).unwrap();

    assert!(validate_semantics(&parsed, source).is_ok());
}

#[test]
fn error_report_shows_the_line_before_and_after() {
    let source = "one\ntwo\nthree four\nfive\nsix";
    let error = ParseError::new(
        Token::new(TokenKind::Identifier, 14, 4),
        ParseErrorKind::UnexpectedToken { expected: TokenKind::Arrow, actual: TokenKind::Identifier },
    );
    let report = ErrorReport::from_parse_error(&error, source);

    assert_eq!(report.message, "Expected Arrow, but found Identifier.");
    assert_eq!(report.line_number, 3);
    let lines = report.lines();
    assert_eq!(lines.len(), 3);
    assert_eq!(lines[0].line_number(), 2);
    assert_eq!(lines[0].line(), "two");
    assert_eq!(lines[0].error_span(), None);
    assert_eq!(lines[1].line_number(), 3);
    assert_eq!(lines[1].line(), "three four");
    assert_eq!(lines[1].error_span(), Some((6, 10)));
    assert_eq!(lines[2].line_number(), 4);
    assert_eq!(lines[2].line(), "five");
    assert_eq!(lines[2].error_span(), None);
}

#[test]
fn error_report_on_the_first_line_shows_two_lines() {
    let source = "A B;\nC => D;";
    let error = ParseError::new(
        Token::new(TokenKind::Identifier, 2, 1),
        ParseErrorKind::MissingSyntax { message: "Something is missing" },
    );
    let report = ErrorReport::from_parse_error(&error, source);

    assert_eq!(report.message, "Something is missing");
    assert_eq!(report.line_number, 1);
    let lines = report.lines();
    assert_eq!(lines.len(), 2);
    assert_eq!(lines[0].line(), "A B;");
    assert_eq!(lines[0].error_span(), Some((2, 3)));
    assert_eq!(lines[1].line(), "C => D;");
    assert_eq!(lines[1].error_span(), None);
}

#[test]
fn error_report_names_symbols_in_messages() {
    let source = "A => B;";
    let undefined = ParseError::new(
        Token::new(TokenKind::Identifier, 5, 1),
        ParseErrorKind::UndefinedSymbol { symbol: "B".to_string() },
    );
    let duplicate = ParseError::new(
        Token::new(TokenKind::Identifier, 0, 1),
        ParseErrorKind::DuplicateSymbol { symbol: "A".to_string() },
    );
    let ambiguous = ParseError::new(Token::new(TokenKind::Identifier, 5, 1), ParseErrorKind::AmbiguousPipe);

    assert_eq!(ErrorReport::from_parse_error(&undefined, source).message, "Undefined symbol B.");
    assert_eq!(ErrorReport::from_parse_error(&duplicate, source).message, "Duplicate symbol A.");
    assert_eq!(
        ErrorReport::from_parse_error(&ambiguous, source).message,
        "An option of '|' refers to more than one rule."
    );
}

#[test]
fn error_report_at_end_of_text_after_final_newline() {
    let source = "A => B;\n";
    let error = ParseError::new(
        Token::new(TokenKind::EndOfFile, 8, 0),
        ParseErrorKind::UnexpectedToken { expected: TokenKind::Identifier, actual: TokenKind::EndOfFile },
    );
    let report = ErrorReport::from_parse_error(&error, source);

    assert_eq!(report.line_number, 2);
    let lines = report.lines();
    assert_eq!(lines.len(), 1);
    assert_eq!(lines[0].line_number(), 1);
    assert_eq!(lines[0].error_span(), None);
}

#[test]
fn error_report_renders_with_terminal_colours() {
    let source = "A B;";
    let error = ParseError::new(
        Token::new(TokenKind::Identifier, 2, 1),
        ParseErrorKind::MissingSyntax { message: "Oops" },
    );
    let report = ErrorReport::from_parse_error(&error, source);

    assert_eq!(
        report.render(),
        "\u{1b}[31m1\u{1b}[0m: \u{1b}[31mOops\u{1b}[0m\n\t1: A \u{1b}[4;31mB\u{1b}[0m;\n"
    );
}

#[test]
fn decimal_string_writes_numerals() {
    assert_eq!(decimal_string(0), "0");
    assert_eq!(decimal_string(7), "7");
    assert_eq!(decimal_string(10), "10");
    assert_eq!(decimal_string(1203), "1203");
    assert_eq!(decimal_string(usize::MAX), usize::MAX.to_string());
}

#[test]
fn grammar_tokenize_identifiers_and_trivia_are_maximal_runs() {
    let source = "Abc  \t de=>f";
    let tokens = tokenize(source);
    let chars: Vec<char> = source.chars().collect();
    for t in tokens.iter() {
        let end = t.offset + t.length;
        let is_run = |pred: &dyn Fn(char) -> bool| {
            chars[t.offset..end].iter().all(|c| pred(*c)) && (end >= chars.len() || !pred(chars[end]))
        };
        if t.kind == TokenKind::Identifier {
            assert!(is_run(&|c: char| c.is_ascii_alphabetic()));
        }
        if t.kind == TokenKind::Trivia {
            assert!(is_run(&|c: char| c.is_ascii_whitespace()));
        }
    }
    let kinds: Vec<TokenKind> = tokens.iter().map(|t| t.kind).collect();
    assert_eq!(
        kinds,
        vec![
            TokenKind::Identifier,
            TokenKind::Trivia,
            TokenKind::Identifier,
            TokenKind::Arrow,
            TokenKind::Identifier,
            TokenKind::EndOfFile
        ]
    );
}
