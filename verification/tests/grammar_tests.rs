use newt::grammar::{root_expr, root_stmt};
use newt::parse::parse_event::ParseEvent;
use newt::parse::parser::Parser;
use newt::syntax::SyntaxKind;
use newt::tokens::{tokenize, StrTokenSource, TokenKind};

fn parser_for(source: &str) -> Parser {
    Parser::new(StrTokenSource::new(tokenize(source)))
}

fn begin(kind: SyntaxKind) -> ParseEvent {
    ParseEvent::BeginNode { kind, is_forward_parent: false, forward_parent_offset: None }
}

fn token(kind: TokenKind, length: usize) -> ParseEvent {
    ParseEvent::Token { kind, length }
}

#[test]
fn root_expr_nests_a_binary_expression_around_its_left_operand() {
    let parsed = root_expr(parser_for("1+2"));

    assert_eq!(
        parsed.events,
        vec![
            ParseEvent::BeginNode {
                kind: SyntaxKind::PrimitiveLiteralExpr,
                is_forward_parent: false,
                forward_parent_offset: Some(3),
            },
            token(TokenKind::IntegerLiteral, 1),
            ParseEvent::EndNode,
            ParseEvent::BeginNode {
                kind: SyntaxKind::BinaryExpr,
                is_forward_parent: true,
                forward_parent_offset: None,
            },
            token(TokenKind::Plus, 1),
            begin(SyntaxKind::PrimitiveLiteralExpr),
            token(TokenKind::IntegerLiteral, 1),
            ParseEvent::EndNode,
            ParseEvent::EndNode,
        ]
    );
    assert_eq!(parsed.consumed_tokens, 3);
}

#[test]
fn root_expr_binds_multiplication_tighter_than_addition() {
    let parsed = root_expr(parser_for("1+2*3"));
    let binary_nodes = parsed
        .events
        .iter()
        .filter(|e| matches!(e, ParseEvent::BeginNode { kind: SyntaxKind::BinaryExpr, .. }))
        .count();

    assert_eq!(binary_nodes, 2);
    // The product is a complete node inside the sum: `2 * 3` opens after the `+`.
    assert_eq!(parsed.events[4], token(TokenKind::Plus, 1));
    assert_eq!(
        parsed.events[5],
        ParseEvent::BeginNode {
            kind: SyntaxKind::PrimitiveLiteralExpr,
            is_forward_parent: false,
            forward_parent_offset: Some(3),
        }
    );
    assert_eq!(parsed.consumed_tokens, 5);
}

#[test]
fn root_expr_parses_groupings_calls_and_properties() {
    let parsed = root_expr(parser_for("(a).b(1, c)"));
    let kinds: Vec<SyntaxKind> = parsed
        .events
        .iter()
        .filter_map(|e| match e {
            ParseEvent::BeginNode { kind, .. } => Some(*kind),
            _ => None,
        })
        .collect();

    assert!(kinds.contains(&SyntaxKind::GroupingExpr));
    assert!(kinds.contains(&SyntaxKind::ObjectPropertyExpr));
    assert!(kinds.contains(&SyntaxKind::FunctionCallExpr));
    assert!(kinds.contains(&SyntaxKind::VariableExpr));
    assert_eq!(parsed.consumed_tokens, tokenize("(a).b(1, c)").len());
}

#[test]
fn root_expr_reports_a_missing_expression() {
    let parsed = root_expr(parser_for(""));

    assert_eq!(
        parsed.events,
        vec![begin(SyntaxKind::Error("Expected expression")), ParseEvent::EndNode]
    );
}

#[test]
fn root_expr_wraps_trailing_text_in_an_error_node() {
    let parsed = root_expr(parser_for("1)"));

    assert_eq!(
        parsed.events,
        vec![
            begin(SyntaxKind::PrimitiveLiteralExpr),
            token(TokenKind::IntegerLiteral, 1),
            begin(SyntaxKind::Error("Unexpected text")),
            ParseEvent::Trivia { kind: TokenKind::RightParenthesis, length: 1 },
            ParseEvent::EndNode,
            ParseEvent::EndNode,
        ]
    );
}

#[test]
fn root_stmt_parses_a_variable_declaration() {
    let parsed = root_stmt(parser_for("let x = 1;"));
    let ws = ParseEvent::Trivia { kind: TokenKind::WhiteSpace, length: 1 };

    assert_eq!(
        parsed.events,
        vec![
            begin(SyntaxKind::StmtListStmt),
            begin(SyntaxKind::VariableDeclarationStmt),
            token(TokenKind::Let, 3),
            ws,
            token(TokenKind::Identifier, 1),
            ws,
            token(TokenKind::Equals, 1),
            ws,
            begin(SyntaxKind::PrimitiveLiteralExpr),
            token(TokenKind::IntegerLiteral, 1),
            ParseEvent::EndNode,
            token(TokenKind::SemiColon, 1),
            ParseEvent::EndNode,
            ParseEvent::EndNode,
        ]
    );
    assert_eq!(parsed.consumed_tokens, 8);
}

#[test]
fn root_stmt_turns_assignment_targets_into_rvals() {
    let parsed = root_stmt(parser_for("x.y = 1; z = 2;"));
    let kinds: Vec<SyntaxKind> = parsed
        .events
        .iter()
        .filter_map(|e| match e {
            ParseEvent::BeginNode { kind, .. } => Some(*kind),
            _ => None,
        })
        .collect();

    assert!(kinds.contains(&SyntaxKind::ObjectPropertyRVal));
    assert!(kinds.contains(&SyntaxKind::VariableRval));
    assert_eq!(kinds.iter().filter(|k| **k == SyntaxKind::AssignmentStmt).count(), 2);
}

#[test]
fn root_stmt_parses_functions_conditionals_and_loops() {
    let source = "fn f(a, b) { if a { return b; } else { return 1; } while b { b = b - 1; } }";
    let parsed = root_stmt(parser_for(source));
    let kinds: Vec<SyntaxKind> = parsed
        .events
        .iter()
        .filter_map(|e| match e {
            ParseEvent::BeginNode { kind, .. } => Some(*kind),
            _ => None,
        })
        .collect();

    assert_eq!(kinds[0], SyntaxKind::StmtListStmt);
    assert_eq!(kinds[1], SyntaxKind::FunctionDeclarationStmt);
    assert!(kinds.contains(&SyntaxKind::IfStmt));
    assert!(kinds.contains(&SyntaxKind::WhileStmt));
    assert_eq!(kinds.iter().filter(|k| **k == SyntaxKind::ReturnStmt).count(), 2);
    assert!(!kinds.iter().any(|k| matches!(k, SyntaxKind::Error(_))));
    assert_eq!(parsed.consumed_tokens, tokenize(source).len());
}

#[test]
fn root_stmt_reports_a_missing_semicolon_and_an_unclosed_block() {
    let parsed = root_stmt(parser_for("{ x"));
    let kinds: Vec<SyntaxKind> = parsed
        .events
        .iter()
        .filter_map(|e| match e {
            ParseEvent::BeginNode { kind, .. } => Some(*kind),
            _ => None,
        })
        .collect();

    assert!(kinds.contains(&SyntaxKind::Error("Expected ';'")));
    assert!(kinds.contains(&SyntaxKind::StmtListStmt));
}

#[test]
fn root_stmt_records_every_token_once() {
    let source = "let a = { x: 1, y: \"s\" }; a.x = -a.y; // done";
    let parsed = root_stmt(parser_for(source));
    let recorded = parsed
        .events
        .iter()
        .filter(|e| matches!(e, ParseEvent::Token { .. } | ParseEvent::Trivia { .. }))
        .count();

    assert_eq!(recorded, tokenize(source).len());
    assert_eq!(parsed.consumed_tokens, tokenize(source).len());
}

#[test]
fn root_stmt_opens_and_closes_nodes_in_pairs() {
    for source in ["fn f(a) { return a.b(1, -2); }", "{ x", "if (a) { b = c; } else { 1 }", ")"] {
        let parsed = root_stmt(parser_for(source));
        let begins = parsed.events.iter().filter(|e| matches!(e, ParseEvent::BeginNode { .. })).count();
        let ends = parsed.events.iter().filter(|e| matches!(e, ParseEvent::EndNode)).count();

        assert_eq!(begins, ends);
    }
}

#[test]
fn root_stmt_records_every_token_length_of_the_source() {
    for source in ["let x = 1;\n// note\nwhile (x < 3) { x = x + 1; }", "fn f(a, b) { return a * b; }  ", "   "] {
        let parsed = root_stmt(parser_for(source));
        let total: usize = parsed
            .events
            .iter()
            .map(|e| match e {
                ParseEvent::Token { length, .. } => *length,
                ParseEvent::Trivia { length, .. } => *length,
                _ => 0,
            })
            .sum();
        assert_eq!(total, source.chars().count());
        assert_eq!(parsed.consumed_tokens, tokenize(source).len());
    }
}
