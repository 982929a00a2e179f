//! Statements: declarations, blocks, conditionals, loops, returns, assignments and
//! expression statements.
use vstd::prelude::*;
use crate::grammar::expr::{expr, moved_on, parsed_a_node, spec_expr};
use crate::grammar::steps::{
    Node, rest, step_end, step_expect, step_remap, step_token, step_token_if,
    lemma_consume_progress, lemma_current_within, lemma_expect_progress, lemma_rest_monotone,
};
use crate::parse::marker::{CompletedMarker, Marker};
use crate::parse::parse_event::ParseEvent;
use crate::parse::parser::{Parser, ParserModel, open_nodes};
use crate::syntax::SyntaxKind;
use crate::tokens::TokenKind;

verus! {

/// Closes the node opened at `node` with `kind`, keeping only the new state.
pub open spec fn end_stmt(m: Option<ParserModel>, node: nat, kind: SyntaxKind) -> Option<ParserModel> {
    match m {
        Some(m1) => match step_end(m1, node, kind) {
            Some((m2, _)) => Some(m2),
            None => None,
        },
        None => None,
    }
}

/// The state after an expression, if it parses.
pub open spec fn after_expr(m: Option<ParserModel>) -> Option<ParserModel> {
    match m {
        Some(m1) => match spec_expr(m1) {
            Some((m2, _)) => Some(m2),
            None => None,
        },
        None => None,
    }
}

/// Consumes a token of `kind` after `m`, if `m` is a state.
pub open spec fn then_token(m: Option<ParserModel>, kind: TokenKind) -> Option<ParserModel> {
    match m {
        Some(m1) => step_token(m1, kind),
        None => None,
    }
}

/// Expects a token of `kind` after `m`, if `m` is a state.
pub open spec fn then_expect(m: Option<ParserModel>, kind: TokenKind, message: &'static str) -> Option<ParserModel> {
    match m {
        Some(m1) => step_expect(m1, kind, message),
        None => None,
    }
}

/// A statement, chosen by its first token.
pub open spec fn spec_stmt(m: ParserModel) -> Option<ParserModel>
    decreases rest(m), 5nat,
{
    let (node, m1) = m.begin();
    match m1.current() {
        TokenKind::Let => spec_stmt_let(m1, node),
        TokenKind::LeftBrace => spec_stmt_list(m1, node),
        TokenKind::If => spec_stmt_if(m1, node),
        TokenKind::While => spec_stmt_while(m1, node),
        TokenKind::Fn => spec_stmt_fn(m1, node),
        TokenKind::Return => spec_stmt_return(m1, node),
        _ => spec_stmt_assignment_or_expr(m1, node),
    }
}

/// `return`, an optional expression, `;`.
pub open spec fn spec_stmt_return(m: ParserModel, node: nat) -> Option<ParserModel> {
    match step_token(m, TokenKind::Return) {
        Some(m1) => {
            let m2 = if m1.current() != TokenKind::SemiColon {
                after_expr(Some(m1))
            } else {
                Some(m1)
            };
            end_stmt(then_token(m2, TokenKind::SemiColon), node, SyntaxKind::ReturnStmt)
        },
        None => None,
    }
}

/// The parameters of a function after the first: `, name` up to `)`.
pub open spec fn spec_fn_parameters(m: ParserModel) -> Option<ParserModel>
    decreases rest(m),
{
    match step_token_if(m, TokenKind::RightParenthesis) {
        Some((m1, true)) => Some(m1),
        Some((_, false)) => match then_token(step_token(m, TokenKind::Comma), TokenKind::Identifier) {
            Some(m2) => if rest(m2) < rest(m) {
                spec_fn_parameters(m2)
            } else {
                None
            },
            None => None,
        },
        None => None,
    }
}

/// `fn name(parameters) { statements }`.
pub open spec fn spec_stmt_fn(m: ParserModel, node: nat) -> Option<ParserModel>
    decreases rest(m), 3nat,
{
    let m3 = then_token(
        then_token(step_token(m, TokenKind::Fn), TokenKind::Identifier),
        TokenKind::LeftParenthesis,
    );
    match m3 {
        Some(m3) => match step_token_if(m3, TokenKind::RightParenthesis) {
            Some((m4, closed)) => {
                let m7 = if !closed {
                    match step_token(m4, TokenKind::Identifier) {
                        Some(m5) => spec_fn_parameters(m5),
                        None => None,
                    }
                } else {
                    Some(m4)
                };
                match m7 {
                    Some(m7) => {
                        let (list, m8) = m7.begin();
                        if rest(m8) <= rest(m) {
                            end_stmt(spec_stmt_list(m8, list), node, SyntaxKind::FunctionDeclarationStmt)
                        } else {
                            None
                        }
                    },
                    None => None,
                }
            },
            None => None,
        },
        None => None,
    }
}

/// `while condition { statements }`.
pub open spec fn spec_stmt_while(m: ParserModel, node: nat) -> Option<ParserModel>
    decreases rest(m), 3nat,
{
    match after_expr(step_token(m, TokenKind::While)) {
        Some(m2) => {
            let (list, m3) = m2.begin();
            if rest(m3) <= rest(m) {
                end_stmt(spec_stmt_list(m3, list), node, SyntaxKind::WhileStmt)
            } else {
                None
            }
        },
        None => None,
    }
}

/// `if condition { statements }`, optionally followed by `else { statements }`.
pub open spec fn spec_stmt_if(m: ParserModel, node: nat) -> Option<ParserModel>
    decreases rest(m), 3nat,
{
    match after_expr(step_token(m, TokenKind::If)) {
        Some(m2) => {
            let (truth, m3) = m2.begin();
            if rest(m3) <= rest(m) {
                match spec_stmt_list(m3, truth) {
                    Some(m4) => match step_token_if(m4, TokenKind::Else) {
                        Some((m5, has_else)) => {
                            let m8 = if has_else {
                                let (falsity, m6) = m5.begin();
                                if rest(m6) <= rest(m) {
                                    spec_stmt_list(m6, falsity)
                                } else {
                                    None
                                }
                            } else {
                                Some(m5)
                            };
                            end_stmt(m8, node, SyntaxKind::IfStmt)
                        },
                        None => None,
                    },
                    None => None,
                }
            } else {
                None
            }
        },
        None => None,
    }
}

/// An assignment, an expression statement, or an error when neither follows.
pub open spec fn spec_stmt_assignment_or_expr(m: ParserModel, node: nat) -> Option<ParserModel> {
    match spec_expr(m) {
        Some((m1, e)) => if m1.current() == TokenKind::Equals {
            spec_stmt_assignment(m1, node, e)
        } else if m1.current() == TokenKind::SemiColon {
            spec_stmt_expr(m1, node)
        } else {
            end_stmt(
                step_expect(m1, TokenKind::SemiColon, "Expected ';'"),
                node,
                SyntaxKind::Error("Expected a valid statement"),
            )
        },
        None => None,
    }
}

/// The kind an assignment target takes: a property or a variable; anything else is an error.
pub open spec fn rval_kind(kind: SyntaxKind) -> SyntaxKind {
    match kind {
        SyntaxKind::ObjectPropertyExpr => SyntaxKind::ObjectPropertyRVal,
        SyntaxKind::VariableExpr => SyntaxKind::VariableRval,
        _ => SyntaxKind::Error("Expected an acceptable r-val"),
    }
}

/// `target = value;` where `target` has already been parsed as `rval`.
pub open spec fn spec_stmt_assignment(m: ParserModel, node: nat, rval: Node) -> Option<ParserModel> {
    let m1 = step_remap(m, rval, rval_kind(rval.2));
    let m3 = after_expr(then_token(m1, TokenKind::Equals));
    end_stmt(then_expect(m3, TokenKind::SemiColon, "Expected ';'"), node, SyntaxKind::AssignmentStmt)
}

/// The `;` of an expression statement.
pub open spec fn spec_stmt_expr(m: ParserModel, node: nat) -> Option<ParserModel> {
    end_stmt(step_expect(m, TokenKind::SemiColon, "Expected ';'"), node, SyntaxKind::ExprStmt)
}

/// `{`, statements, `}`.
pub open spec fn spec_stmt_list(m: ParserModel, node: nat) -> Option<ParserModel>
    decreases rest(m), 2nat,
{
    match step_expect(m, TokenKind::LeftBrace, "Expected '{'") {
        Some(m1) => {
            let body = if rest(m1) < rest(m) {
                spec_stmt_list_loop(m1)
            } else if m1.current() == TokenKind::EndOfFile {
                step_expect(m1, TokenKind::RightBrace, "Expected '}'")
            } else {
                None
            };
            end_stmt(body, node, SyntaxKind::StmtListStmt)
        },
        None => None,
    }
}

/// Statements up to a `}`, or up to the end of file, where a `}` is expected.
pub open spec fn spec_stmt_list_loop(m: ParserModel) -> Option<ParserModel>
    decreases rest(m), 6nat,
{
    match step_token_if(m, TokenKind::RightBrace) {
        Some((m1, true)) => Some(m1),
        Some((_, false)) => if m.current() == TokenKind::EndOfFile {
            step_expect(m, TokenKind::RightBrace, "Expected '}'")
        } else {
            match spec_stmt(m) {
                Some(m2) => if rest(m2) < rest(m) {
                    spec_stmt_list_loop(m2)
                } else {
                    None
                },
                None => None,
            }
        },
        None => None,
    }
}

/// `let name = value;`.
pub open spec fn spec_stmt_let(m: ParserModel, node: nat) -> Option<ParserModel> {
    let m3 = then_expect(
        then_expect(step_expect(m, TokenKind::Let, "Expected 'let'"), TokenKind::Identifier, "Expected identifier"),
        TokenKind::Equals,
        "Expected equals",
    );
    end_stmt(
        then_expect(after_expr(m3), TokenKind::SemiColon, "Expected semi-colon"),
        node,
        SyntaxKind::VariableDeclarationStmt,
    )
}

/// Parses a statement.
pub fn stmt(p: &mut Parser)
    requires
        old(p)@.wf(),
        spec_stmt(old(p)@) is Some,
    ensures
        parsed_a_node(old(p)@, final(p)@),
        moved_on(old(p)@, final(p)@),
        final(p)@.consumed > old(p)@.consumed,
        spec_stmt(old(p)@) == Some(final(p)@),
    decreases rest(old(p)@), 5nat,
{
    let node = p.begin_node();
    match p.current() {
        TokenKind::Let => stmt_let(p, node),
        TokenKind::LeftBrace => stmt_list(p, node),
        TokenKind::If => stmt_if(p, node),
        TokenKind::While => stmt_while(p, node),
        TokenKind::Fn => stmt_fn(p, node),
        TokenKind::Return => stmt_return(p, node),
        _ => stmt_assignment_or_expr(p, node),
    }
}

fn token_step(p: &mut Parser, kind: TokenKind)
    requires
        old(p)@.wf(),
        step_token(old(p)@, kind) is Some,
    ensures
        open_nodes(final(p)@) == open_nodes(old(p)@),
        moved_on(old(p)@, final(p)@),
        final(p)@.consumed > old(p)@.consumed,
        step_token(old(p)@, kind) == Some(final(p)@),
        old(p)@.consumed <= old(p)@.tokens.len() ==> rest(final(p)@) < rest(old(p)@),
{
    let ghost m = p@;
    p.token(kind);
    proof {
        lemma_consume_progress(m, ParseEvent::Token { kind: m.current(), length: m.current_token().length });
        lemma_current_within(m);
    }
}

fn expect_step(p: &mut Parser, kind: TokenKind, msg: &'static str)
    requires
        old(p)@.wf(),
        step_expect(old(p)@, kind, msg) is Some,
    ensures
        open_nodes(final(p)@) == open_nodes(old(p)@),
        moved_on(old(p)@, final(p)@),
        final(p)@.consumed > old(p)@.consumed,
        step_expect(old(p)@, kind, msg) == Some(final(p)@),
        old(p)@.consumed <= old(p)@.tokens.len() ==> rest(final(p)@) < rest(old(p)@),
{
    let ghost m = p@;
    p.expect_token_kind(kind, msg);
    proof {
        lemma_expect_progress(m, kind, msg);
    }
}

fn end_step(p: &mut Parser, node: Marker, kind: SyntaxKind)
    requires
        old(p)@.wf(),
        step_end(old(p)@, node.spec_index(), kind) is Some,
    ensures
        open_nodes(final(p)@) == open_nodes(old(p)@) - 1,
        final(p)@.events.len() > old(p)@.events.len(),
        moved_on(old(p)@, final(p)@),
        final(p)@.consumed == old(p)@.consumed,
        end_stmt(Some(old(p)@), node.spec_index(), kind) == Some(final(p)@),
{
    p.end_node(node, kind);
}

fn stmt_return(p: &mut Parser, node: Marker)
    requires
        old(p)@.wf(),
        spec_stmt_return(old(p)@, node.spec_index()) is Some,
    ensures
        open_nodes(final(p)@) == open_nodes(old(p)@) - 1,
        final(p)@.events.len() > old(p)@.events.len(),
        moved_on(old(p)@, final(p)@),
        final(p)@.consumed > old(p)@.consumed,
        spec_stmt_return(old(p)@, node.spec_index()) == Some(final(p)@),
{
    let ghost m0 = p@;
    token_step(p, TokenKind::Return);
    let ghost m1 = p@;
    if p.current() != TokenKind::SemiColon {
        expr(p);
    }
    token_step(p, TokenKind::SemiColon);
    end_step(p, node, SyntaxKind::ReturnStmt);
}

fn stmt_fn(p: &mut Parser, node: Marker)
    requires
        old(p)@.wf(),
        spec_stmt_fn(old(p)@, node.spec_index()) is Some,
    ensures
        open_nodes(final(p)@) == open_nodes(old(p)@) - 1,
        final(p)@.events.len() > old(p)@.events.len(),
        moved_on(old(p)@, final(p)@),
        final(p)@.consumed > old(p)@.consumed,
        spec_stmt_fn(old(p)@, node.spec_index()) == Some(final(p)@),
    decreases rest(old(p)@), 3nat,
{
    let ghost m0 = p@;
    token_step(p, TokenKind::Fn);
    token_step(p, TokenKind::Identifier);
    token_step(p, TokenKind::LeftParenthesis);
    let ghost m3 = p@;
    if !p.token_if(TokenKind::RightParenthesis) {
        token_step(p, TokenKind::Identifier);
        let ghost m5 = p@;
        loop
            invariant_except_break
                spec_fn_parameters(p@) == spec_fn_parameters(m5),
            invariant
                moved_on(m5, p@),
                open_nodes(p@) == open_nodes(m5),
                spec_fn_parameters(m5) is Some,
            ensures
                moved_on(m5, p@),
                open_nodes(p@) == open_nodes(m5),
                spec_fn_parameters(m5) == Some(p@),
            decreases rest(p@),
        {
            let ghost before = p@;
            if p.token_if(TokenKind::RightParenthesis) {
                proof {
                    lemma_rest_monotone(m5, p@);
                }
                break;
            }
            token_step(p, TokenKind::Comma);
            token_step(p, TokenKind::Identifier);
        }
    } else {
        proof {
            lemma_consume_progress(m3, ParseEvent::Token { kind: m3.current(), length: m3.current_token().length });
        }
    }
    proof {
        lemma_rest_monotone(m0, p@);
    }
    let stmt_list_node = p.begin_node();
    stmt_list(p, stmt_list_node);
    end_step(p, node, SyntaxKind::FunctionDeclarationStmt);
}

fn stmt_while(p: &mut Parser, node: Marker)
    requires
        old(p)@.wf(),
        spec_stmt_while(old(p)@, node.spec_index()) is Some,
    ensures
        open_nodes(final(p)@) == open_nodes(old(p)@) - 1,
        final(p)@.events.len() > old(p)@.events.len(),
        moved_on(old(p)@, final(p)@),
        final(p)@.consumed > old(p)@.consumed,
        spec_stmt_while(old(p)@, node.spec_index()) == Some(final(p)@),
    decreases rest(old(p)@), 3nat,
{
    let ghost m0 = p@;
    token_step(p, TokenKind::While);
    expr(p);
    proof {
        lemma_rest_monotone(m0, p@);
    }
    let stmts = p.begin_node();
    stmt_list(p, stmts);
    end_step(p, node, SyntaxKind::WhileStmt);
}

#[verifier::rlimit(40)]
fn stmt_if(p: &mut Parser, node: Marker)
    requires
        old(p)@.wf(),
        spec_stmt_if(old(p)@, node.spec_index()) is Some,
    ensures
        open_nodes(final(p)@) == open_nodes(old(p)@) - 1,
        final(p)@.events.len() > old(p)@.events.len(),
        moved_on(old(p)@, final(p)@),
        final(p)@.consumed > old(p)@.consumed,
        spec_stmt_if(old(p)@, node.spec_index()) == Some(final(p)@),
    decreases rest(old(p)@), 3nat,
{
    let ghost m0 = p@;
    token_step(p, TokenKind::If);
    expr(p);
    proof {
        lemma_rest_monotone(m0, p@);
    }
    let truth_list = p.begin_node();
    stmt_list(p, truth_list);
    let ghost m4 = p@;
    if p.token_if(TokenKind::Else) {
        proof {
            lemma_consume_progress(m4, ParseEvent::Token { kind: m4.current(), length: m4.current_token().length });
            lemma_rest_monotone(m0, p@);
        }
        let false_list = p.begin_node();
        stmt_list(p, false_list);
    }
    end_step(p, node, SyntaxKind::IfStmt);
}

fn stmt_assignment_or_expr(p: &mut Parser, node: Marker)
    requires
        old(p)@.wf(),
        spec_stmt_assignment_or_expr(old(p)@, node.spec_index()) is Some,
    ensures
        open_nodes(final(p)@) == open_nodes(old(p)@) - 1,
        final(p)@.events.len() > old(p)@.events.len(),
        moved_on(old(p)@, final(p)@),
        final(p)@.consumed > old(p)@.consumed,
        spec_stmt_assignment_or_expr(old(p)@, node.spec_index()) == Some(final(p)@),
{
    let expr = expr(p);
    match p.current() {
        TokenKind::Equals => stmt_assignment(p, node, expr),
        TokenKind::SemiColon => stmt_expr(p, node),
        _ => {
            expect_step(p, TokenKind::SemiColon, "Expected ';'");
            end_step(p, node, SyntaxKind::Error("Expected a valid statement"));
        },
    }
}

fn stmt_assignment(p: &mut Parser, node: Marker, rval_expr: CompletedMarker)
    requires
        old(p)@.wf(),
        spec_stmt_assignment(old(p)@, node.spec_index(), rval_expr@) is Some,
    ensures
        open_nodes(final(p)@) == open_nodes(old(p)@) - 1,
        final(p)@.events.len() > old(p)@.events.len(),
        moved_on(old(p)@, final(p)@),
        final(p)@.consumed > old(p)@.consumed,
        spec_stmt_assignment(old(p)@, node.spec_index(), rval_expr@) == Some(final(p)@),
{
    rval(p, rval_expr);
    token_step(p, TokenKind::Equals);
    expr(p);
    expect_step(p, TokenKind::SemiColon, "Expected ';'");
    end_step(p, node, SyntaxKind::AssignmentStmt);
}

fn stmt_expr(p: &mut Parser, node: Marker)
    requires
        old(p)@.wf(),
        spec_stmt_expr(old(p)@, node.spec_index()) is Some,
    ensures
        open_nodes(final(p)@) == open_nodes(old(p)@) - 1,
        final(p)@.events.len() > old(p)@.events.len(),
        moved_on(old(p)@, final(p)@),
        final(p)@.consumed > old(p)@.consumed,
        spec_stmt_expr(old(p)@, node.spec_index()) == Some(final(p)@),
{
    expect_step(p, TokenKind::SemiColon, "Expected ';'");
    end_step(p, node, SyntaxKind::ExprStmt);
}

fn stmt_list(p: &mut Parser, node: Marker)
    requires
        old(p)@.wf(),
        spec_stmt_list(old(p)@, node.spec_index()) is Some,
    ensures
        open_nodes(final(p)@) == open_nodes(old(p)@) - 1,
        final(p)@.events.len() > old(p)@.events.len(),
        moved_on(old(p)@, final(p)@),
        final(p)@.consumed > old(p)@.consumed,
        spec_stmt_list(old(p)@, node.spec_index()) == Some(final(p)@),
    decreases rest(old(p)@), 2nat,
{
    let ghost m0 = p@;
    expect_step(p, TokenKind::LeftBrace, "Expected '{'");
    let ghost m1 = p@;
    let ghost body = if rest(m1) < rest(m0) {
        spec_stmt_list_loop(m1)
    } else if m1.current() == TokenKind::EndOfFile {
        step_expect(m1, TokenKind::RightBrace, "Expected '}'")
    } else {
        None
    };
    proof {
        lemma_current_within(m1);
    }
    loop
        invariant_except_break
            rest(m1) < rest(m0) ==> spec_stmt_list_loop(p@) == body,
            !(rest(m1) < rest(m0)) ==> p@ == m1 && m1.current() == TokenKind::EndOfFile,
        invariant
            m0 == old(p)@,
            moved_on(m1, p@),
            open_nodes(p@) == open_nodes(m1),
            m1.tokens == m0.tokens,
            m1.consumed > m0.consumed,
            body is Some,
            body == (if rest(m1) < rest(m0) {
                spec_stmt_list_loop(m1)
            } else if m1.current() == TokenKind::EndOfFile {
                step_expect(m1, TokenKind::RightBrace, "Expected '}'")
            } else {
                None
            }),
        ensures
            moved_on(m1, p@),
            open_nodes(p@) == open_nodes(m1),
            body == Some(p@),
        decreases rest(p@),
    {
        let ghost before = p@;
        proof {
            lemma_current_within(before);
            lemma_rest_monotone(m1, before);
        }
        if p.token_if(TokenKind::RightBrace) {
            proof {
                lemma_consume_progress(before, ParseEvent::Token { kind: before.current(), length: before.current_token().length });
            }
            break;
        }
        if p.current() == TokenKind::EndOfFile {
            proof {
                assert(p@ == before);
                if rest(m1) < rest(m0) {
                    assert(spec_stmt_list_loop(before) == step_expect(
                        before,
                        TokenKind::RightBrace,
                        "Expected '}'",
                    ));
                }
            }
            expect_step(p, TokenKind::RightBrace, "Expected '}'");
            break;
        }
        proof {
            lemma_rest_monotone(m0, before);
        }
        stmt(p);
        proof {
            lemma_rest_monotone(before, p@);
        }
    }
    end_step(p, node, SyntaxKind::StmtListStmt);
}

fn stmt_let(p: &mut Parser, node: Marker)
    requires
        old(p)@.wf(),
        spec_stmt_let(old(p)@, node.spec_index()) is Some,
    ensures
        open_nodes(final(p)@) == open_nodes(old(p)@) - 1,
        final(p)@.events.len() > old(p)@.events.len(),
        moved_on(old(p)@, final(p)@),
        final(p)@.consumed > old(p)@.consumed,
        spec_stmt_let(old(p)@, node.spec_index()) == Some(final(p)@),
{
    expect_step(p, TokenKind::Let, "Expected 'let'");
    expect_step(p, TokenKind::Identifier, "Expected identifier");
    expect_step(p, TokenKind::Equals, "Expected equals");
    expr(p);
    expect_step(p, TokenKind::SemiColon, "Expected semi-colon");
    end_step(p, node, SyntaxKind::VariableDeclarationStmt);
}

fn rval(p: &mut Parser, rval: CompletedMarker)
    requires
        old(p)@.wf(),
        step_remap(old(p)@, rval@, rval_kind(rval@.2)) is Some,
    ensures
        open_nodes(final(p)@) == open_nodes(old(p)@),
        moved_on(old(p)@, final(p)@),
        final(p)@.consumed == old(p)@.consumed,
        step_remap(old(p)@, rval@, rval_kind(rval@.2)) == Some(final(p)@),
{
    let remap_target = match rval.kind() {
        SyntaxKind::ObjectPropertyExpr => SyntaxKind::ObjectPropertyRVal,
        SyntaxKind::VariableExpr => SyntaxKind::VariableRval,
        _ => SyntaxKind::Error("Expected an acceptable r-val"),
    };
    p.remap_node(&rval, remap_target);
}

/// A bare `return;` records only its two tokens: the statement opens a node, takes the
/// `return` and the `;` (with the trivia after each), and closes the node as a return
/// statement; no expression node, and so no error node, is recorded for the missing
/// value.
pub proof fn law_bare_return_records_no_expression(m: ParserModel)
    requires
        m.wf(),
        m.current() == TokenKind::Return,
        m.take_token().current() == TokenKind::SemiColon,
        m.take_token().consumed < usize::MAX,
        m.consumed < usize::MAX,
    ensures
        spec_stmt(m) == Some(
            {
                let (node, m1) = m.begin();
                m1.take_token().take_token().end(node, SyntaxKind::ReturnStmt)
            },
        ),
{
    let (node, m1) = m.begin();
    assert(m1.tokens == m.tokens && m1.consumed == m.consumed);
    assert(m1.current() == TokenKind::Return);
    let m2 = m1.take_token();
    assert(m2.tokens == m.take_token().tokens);
    assert(m2.consumed == m.take_token().consumed);
    assert(m2.current() == TokenKind::SemiColon);
    let m3 = m2.take_token();
    assert(node < m1.events.len() && m1.events[node as int] is BeginNode);
    assert(m2.events.subrange(0, m1.events.len() as int) =~= m1.events);
    assert(m3.events.subrange(0, m2.events.len() as int) =~= m2.events);
    assert(m3.events[node as int] == m2.events[node as int]);
    assert(m2.events[node as int] == m1.events[node as int]);
}

} // verus!
