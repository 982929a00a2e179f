//! Expressions: a precedence-climbing parser driven by a table of rules, one per token
//! kind, that say how a token starts, continues or follows an expression.
use vstd::prelude::*;
use crate::grammar::steps::{
    Node, rest, step_end, step_expect, step_precede, step_token, step_token_if,
    lemma_consume_progress, lemma_current_within, lemma_expect_progress, lemma_rest_monotone,
};
use crate::parse::parse_event::ParseEvent;
use crate::parse::marker::CompletedMarker;
use crate::parse::parser::{Parser, ParserModel, accounts_for_tokens, open_nodes, trivia_run};
use crate::syntax::SyntaxKind;
use crate::tokens::{TokenKind, spec_is_trivia};

verus! {

/// A parse that starts an expression at the current token.
#[derive(PartialEq, Eq, Structural, Copy, Clone, Debug)]
pub enum LhsParseFunction {
    UnaryPrefix,
    PrimaryExpr,
}

/// A parse that continues an expression already parsed.
#[derive(PartialEq, Eq, Structural, Copy, Clone, Debug)]
pub enum RhsParseFunction {
    BinaryExpr,
    UnarySuffix,
}

/// How tightly an operator binds: lower levels bind tighter.
pub type PrecedenceLevel = usize;

pub const PRIMARY_PRECEDENCE: PrecedenceLevel = 1;

pub const MULTIPLICATION_PRECEDENCE: PrecedenceLevel = 2;

pub const ADDITION_PRECEDENCE: PrecedenceLevel = 3;

pub const LOGIC_PRECEDENCE: PrecedenceLevel = 4;

pub const NO_PRECEDENCE: PrecedenceLevel = 1000;

/// What a token kind means to the expression parser: its precedence and the parses
/// it can start (as a prefix), continue (as a binary operator) or follow (as a suffix).
#[derive(Copy, Clone, Debug)]
pub struct PrecedenceRule {
    pub token_kind: TokenKind,
    pub precedence: PrecedenceLevel,
    pub unary_prefix: Option<LhsParseFunction>,
    pub binary: Option<RhsParseFunction>,
    pub unary_suffix: Option<RhsParseFunction>,
}

/// The abstract rule: precedence, prefix, binary and suffix parses.
pub type RuleModel = (nat, Option<LhsParseFunction>, Option<RhsParseFunction>, Option<RhsParseFunction>);

impl View for PrecedenceRule {
    type V = RuleModel;

    open spec fn view(&self) -> RuleModel {
        (self.precedence as nat, self.unary_prefix, self.binary, self.unary_suffix)
    }
}

/// The rule of each token kind that has one.
pub open spec fn rule_of(k: TokenKind) -> Option<RuleModel> {
    let binary = Some(RhsParseFunction::BinaryExpr);
    let primary = Some(LhsParseFunction::PrimaryExpr);
    match k {
        TokenKind::Star | TokenKind::Slash => Some((2, None, binary, None)),
        TokenKind::Plus => Some((3, None, binary, None)),
        TokenKind::Minus => Some((3, Some(LhsParseFunction::UnaryPrefix), binary, None)),
        TokenKind::LessEquals | TokenKind::Less | TokenKind::GreaterEquals | TokenKind::Greater
        | TokenKind::EqualsEquals => Some((4, None, binary, None)),
        TokenKind::Bang => Some((1, Some(LhsParseFunction::UnaryPrefix), None, None)),
        TokenKind::IntegerLiteral | TokenKind::FloatLiteral | TokenKind::GlyphLiteral
        | TokenKind::StringLiteral | TokenKind::Identifier | TokenKind::True
        | TokenKind::False => Some((1, primary, None, None)),
        TokenKind::LeftParenthesis => Some((1000, primary, None, Some(RhsParseFunction::UnarySuffix))),
        TokenKind::LeftBrace => Some((1000, primary, None, None)),
        TokenKind::Dot => Some((1000, None, None, Some(RhsParseFunction::UnarySuffix))),
        _ => None,
    }
}

/// The prefix parse of `k`, if any.
pub open spec fn prefix_of(k: TokenKind) -> Option<LhsParseFunction> {
    match rule_of(k) {
        Some(r) => r.1,
        None => None,
    }
}

/// The binary parse of `k`, if any.
pub open spec fn binary_of(k: TokenKind) -> Option<RhsParseFunction> {
    match rule_of(k) {
        Some(r) => r.2,
        None => None,
    }
}

/// The suffix parse of `k`, if any.
pub open spec fn suffix_of(k: TokenKind) -> Option<RhsParseFunction> {
    match rule_of(k) {
        Some(r) => r.3,
        None => None,
    }
}

/// The precedence of `k`; kinds without a rule bind loosest of all.
pub open spec fn precedence_of(k: TokenKind) -> nat {
    match rule_of(k) {
        Some(r) => r.0,
        None => 1000,
    }
}

/// Opens a node and closes it at once as an error carrying `message`.
pub open spec fn spec_error_node(m: ParserModel, message: &'static str) -> Option<(ParserModel, Node)> {
    let (i, m1) = m.begin();
    step_end(m1, i, SyntaxKind::Error(message))
}

/// Wraps the current token in a node of `kind`.
pub open spec fn spec_single_token_node(m: ParserModel, kind: SyntaxKind) -> Option<(ParserModel, Node)> {
    let (i, m1) = m.begin();
    match step_token(m1, m1.current()) {
        Some(m2) => step_end(m2, i, kind),
        None => None,
    }
}

/// Each `.name` after `previous` wraps everything so far in a property node.
pub open spec fn spec_object_property_expr(m: ParserModel, previous: Node) -> Option<(ParserModel, Node)>
    decreases rest(m),
{
    if m.current() == TokenKind::Dot {
        let (i, m1) = m.begin();
        match step_precede(m1, previous, i) {
            Some(m2) => match step_token(m2, TokenKind::Dot) {
                Some(m3) => match step_token(m3, TokenKind::Identifier) {
                    Some(m4) => match step_end(m4, i, SyntaxKind::ObjectPropertyExpr) {
                        Some((m5, node)) => if rest(m5) < rest(m) {
                            spec_object_property_expr(m5, node)
                        } else {
                            None
                        },
                        None => None,
                    },
                    None => None,
                },
                None => None,
            },
            None => None,
        }
    } else {
        Some((m, previous))
    }
}

/// An expression: operators up to the loosest binding level.
pub open spec fn spec_expr(m: ParserModel) -> Option<(ParserModel, Node)>
    decreases rest(m), 10nat,
{
    spec_parse_expr(m, 4)
}

/// An expression whose binary operators bind at `precedence` or tighter.
pub open spec fn spec_parse_expr(m: ParserModel, precedence: nat) -> Option<(ParserModel, Node)>
    decreases rest(m), 9nat,
{
    let lhs = match prefix_of(m.current()) {
        Some(LhsParseFunction::UnaryPrefix) => spec_unary_prefix(m),
        Some(LhsParseFunction::PrimaryExpr) => spec_primary_expr(m),
        None => spec_error_node(m, "Expected expression"),
    };
    match lhs {
        Some((m1, node)) => if prefix_of(m.current()) is None {
            Some((m1, node))
        } else if rest(m1) <= rest(m) {
            spec_parse_expr_loop(m1, precedence, node)
        } else {
            None
        },
        None => None,
    }
}

/// Applies binary operators binding at `precedence` or tighter to `lhs`, left to right.
pub open spec fn spec_parse_expr_loop(m: ParserModel, precedence: nat, lhs: Node) -> Option<(ParserModel, Node)>
    decreases rest(m), 7nat,
{
    if precedence >= precedence_of(m.current()) {
        let continued = match binary_of(m.current()) {
            Some(RhsParseFunction::BinaryExpr) => spec_binary_expr(m, lhs),
            Some(RhsParseFunction::UnarySuffix) => spec_unary_suffix(m, lhs),
            None => None,
        };
        match continued {
            Some((m1, node)) => if rest(m1) < rest(m) {
                spec_parse_expr_loop(m1, precedence, node)
            } else {
                None
            },
            None => None,
        }
    } else {
        Some((m, lhs))
    }
}

/// A binary operator and its right operand, in a node that takes `lhs` as its first child.
pub open spec fn spec_binary_expr(m: ParserModel, lhs: Node) -> Option<(ParserModel, Node)>
    decreases rest(m), 3nat,
{
    let (i, m1) = m.begin();
    match step_precede(m1, lhs, i) {
        Some(m2) => {
            let operator = m2.current();
            match step_token(m2, operator) {
                Some(m3) => if rest(m3) < rest(m) {
                    match spec_parse_expr(m3, (precedence_of(operator) - 1) as nat) {
                        Some((m4, _)) => step_end(m4, i, SyntaxKind::BinaryExpr),
                        None => None,
                    }
                } else {
                    None
                },
                None => None,
            }
        },
        None => None,
    }
}

/// A prefix operator and its operand.
pub open spec fn spec_unary_prefix(m: ParserModel) -> Option<(ParserModel, Node)>
    decreases rest(m), 8nat,
{
    let (i, m1) = m.begin();
    let operator = m1.current();
    match step_token(m1, operator) {
        Some(m2) => if rest(m2) < rest(m) {
            match spec_parse_expr(m2, (precedence_of(operator) - 1) as nat) {
                Some((m3, _)) => step_end(m3, i, SyntaxKind::UnaryExpr),
                None => None,
            }
        } else {
            None
        },
        None => None,
    }
}

/// A property access or a call after `node`, or an error node.
pub open spec fn spec_unary_suffix(m: ParserModel, node: Node) -> Option<(ParserModel, Node)>
    decreases rest(m), 3nat,
{
    if m.current() == TokenKind::Dot {
        spec_object_property_expr(m, node)
    } else if m.current() == TokenKind::LeftParenthesis {
        spec_call_expr(m, node)
    } else {
        spec_error_node(m, "Expected unary suffix expression, got {:?}")
    }
}

/// A parenthesised expression.
pub open spec fn spec_grouping_expr(m: ParserModel) -> Option<(ParserModel, Node)>
    decreases rest(m), 5nat,
{
    let (i, m1) = m.begin();
    match step_token_if(m1, TokenKind::LeftParenthesis) {
        Some((m2, _)) => if rest(m2) < rest(m) {
            match spec_expr(m2) {
                Some((m3, _)) => match step_expect(
                    m3,
                    TokenKind::RightParenthesis,
                    "Expected ')' to close grouping",
                ) {
                    Some(m4) => step_end(m4, i, SyntaxKind::GroupingExpr),
                    None => None,
                },
                None => None,
            }
        } else {
            None
        },
        None => None,
    }
}

/// A literal, a variable, a grouping or an object literal, then any suffixes.
pub open spec fn spec_primary_expr(m: ParserModel) -> Option<(ParserModel, Node)>
    decreases rest(m), 8nat,
{
    let first = match m.current() {
        TokenKind::IntegerLiteral | TokenKind::FloatLiteral | TokenKind::GlyphLiteral
        | TokenKind::StringLiteral | TokenKind::True | TokenKind::False => spec_single_token_node(
            m,
            SyntaxKind::PrimitiveLiteralExpr,
        ),
        TokenKind::LeftParenthesis => spec_grouping_expr(m),
        TokenKind::Identifier => spec_single_token_node(m, SyntaxKind::VariableExpr),
        TokenKind::LeftBrace => spec_object_literal_expr(m),
        _ => spec_error_node(m, "Expected primary expression"),
    };
    match first {
        Some((m1, node)) => if rest(m1) <= rest(m) {
            spec_suffix_loop(m1, node)
        } else {
            None
        },
        None => None,
    }
}

/// Applies suffixes to `node` while the current token can follow an expression.
pub open spec fn spec_suffix_loop(m: ParserModel, node: Node) -> Option<(ParserModel, Node)>
    decreases rest(m), 4nat,
{
    let continued = match suffix_of(m.current()) {
        Some(RhsParseFunction::UnarySuffix) => spec_unary_suffix(m, node),
        Some(RhsParseFunction::BinaryExpr) => spec_binary_expr(m, node),
        None => None,
    };
    match suffix_of(m.current()) {
        Some(_) => match continued {
            Some((m1, node1)) => if rest(m1) < rest(m) {
                spec_suffix_loop(m1, node1)
            } else {
                None
            },
            None => None,
        },
        None => Some((m, node)),
    }
}

/// `{`, then optionally `name: expr` and any number of `, name: expr`, then `}`.
pub open spec fn spec_object_literal_expr(m: ParserModel) -> Option<(ParserModel, Node)>
    decreases rest(m), 5nat,
{
    let (i, m1) = m.begin();
    match step_token(m1, TokenKind::LeftBrace) {
        Some(m2) => {
            let first = if m2.current() == TokenKind::Identifier {
                match step_token(m2, TokenKind::Identifier) {
                    Some(m3) => match step_token(m3, TokenKind::Colon) {
                        Some(m4) => if rest(m4) < rest(m) {
                            match spec_expr(m4) {
                                Some((m5, _)) => Some(m5),
                                None => None,
                            }
                        } else {
                            None
                        },
                        None => None,
                    },
                    None => None,
                }
            } else {
                Some(m2)
            };
            match first {
                Some(m6) => if rest(m6) <= rest(m) {
                    match spec_object_fields(m6) {
                        Some(m7) => match step_token(m7, TokenKind::RightBrace) {
                            Some(m8) => step_end(m8, i, SyntaxKind::ObjectLiteralExpr),
                            None => None,
                        },
                        None => None,
                    }
                } else {
                    None
                },
                None => None,
            }
        },
        None => None,
    }
}

/// Any number of `, name: expr`.
pub open spec fn spec_object_fields(m: ParserModel) -> Option<ParserModel>
    decreases rest(m), 1nat,
{
    if m.current() == TokenKind::Comma && m.current() != TokenKind::EndOfFile {
        match step_token(m, TokenKind::Comma) {
            Some(m1) => match step_token(m1, TokenKind::Identifier) {
                Some(m2) => match step_token(m2, TokenKind::Colon) {
                    Some(m3) => if rest(m3) < rest(m) {
                        match spec_expr(m3) {
                            Some((m4, _)) => if rest(m4) < rest(m) {
                                spec_object_fields(m4)
                            } else {
                                None
                            },
                            None => None,
                        }
                    } else {
                        None
                    },
                    None => None,
                },
                None => None,
            },
            None => None,
        }
    } else {
        Some(m)
    }
}

/// A call of `lhs`: `(`, arguments separated by `,`, then `)`.
pub open spec fn spec_call_expr(m: ParserModel, lhs: Node) -> Option<(ParserModel, Node)>
    decreases rest(m), 2nat,
{
    let (i, m1) = m.begin();
    match step_precede(m1, lhs, i) {
        Some(m2) => match step_expect(m2, TokenKind::LeftParenthesis, "Expected '('") {
            Some(m3) => if rest(m3) < rest(m) {
                let first = if m3.current() != TokenKind::EndOfFile && m3.current()
                    != TokenKind::RightParenthesis {
                    match spec_expr(m3) {
                        Some((m4, _)) => Some(m4),
                        None => None,
                    }
                } else {
                    Some(m3)
                };
                match first {
                    Some(m5) => if rest(m5) <= rest(m) {
                        match spec_call_arguments(m5) {
                            Some(m6) => match step_expect(m6, TokenKind::RightParenthesis, "Expected ')'") {
                                Some(m7) => step_end(m7, i, SyntaxKind::FunctionCallExpr),
                                None => None,
                            },
                            None => None,
                        }
                    } else {
                        None
                    },
                    None => None,
                }
            } else {
                None
            },
            None => None,
        },
        None => None,
    }
}

/// Further arguments of a call, each after a `,`, up to `)` or the end of file.
pub open spec fn spec_call_arguments(m: ParserModel) -> Option<ParserModel>
    decreases rest(m), 1nat,
{
    if m.current() != TokenKind::EndOfFile && m.current() != TokenKind::RightParenthesis {
        match step_expect(m, TokenKind::Comma, "Expected ','") {
            Some(m1) => if rest(m1) < rest(m) {
                match spec_expr(m1) {
                    Some((m2, _)) => if rest(m2) < rest(m) {
                        spec_call_arguments(m2)
                    } else {
                        None
                    },
                    None => None,
                }
            } else {
                None
            },
            None => None,
        }
    } else {
        Some(m)
    }
}

impl PrecedenceRule {
    /// The rule of `token_kind`.
    pub fn rule(
        precedence: PrecedenceLevel,
        token_kind: TokenKind,
        unary_prefix: Option<LhsParseFunction>,
        binary: Option<RhsParseFunction>,
        unary_suffix: Option<RhsParseFunction>,
    ) -> (r: PrecedenceRule)
        ensures
            r.token_kind == token_kind,
            r@ == (precedence as nat, unary_prefix, binary, unary_suffix),
    {
        PrecedenceRule { precedence, token_kind, unary_prefix, binary, unary_suffix }
    }
}

/// The rules of the expression parser, one for each token kind that has one: twenty
/// rules, no two for the same kind.
fn build_precedence_rules_table() -> (table: Vec<PrecedenceRule>)
    ensures
        table.len() == 20,
        forall|i: int, j: int|
            0 <= i < j < table.len() ==> #[trigger] table[i].token_kind != #[trigger] table[j].token_kind,
        forall|i: int| 0 <= i < table.len() ==> rule_of(#[trigger] table[i].token_kind) == Some(table[i]@),
        forall|k: TokenKind| rule_of(k) is Some ==> exists|i: int| 0 <= i < table.len() && #[trigger] table[i].token_kind == k,
{
    let binary = Some(RhsParseFunction::BinaryExpr);
    let primary = Some(LhsParseFunction::PrimaryExpr);
    let table = vec![
        // basic math operators
        PrecedenceRule::rule(MULTIPLICATION_PRECEDENCE, TokenKind::Star, None, binary, None),
        PrecedenceRule::rule(MULTIPLICATION_PRECEDENCE, TokenKind::Slash, None, binary, None),
        PrecedenceRule::rule(ADDITION_PRECEDENCE, TokenKind::Plus, None, binary, None),
        PrecedenceRule::rule(
            ADDITION_PRECEDENCE,
            TokenKind::Minus,
            Some(LhsParseFunction::UnaryPrefix),
            binary,
            None,
        ),
        // logical operators
        PrecedenceRule::rule(LOGIC_PRECEDENCE, TokenKind::LessEquals, None, binary, None),
        PrecedenceRule::rule(LOGIC_PRECEDENCE, TokenKind::Less, None, binary, None),
        PrecedenceRule::rule(LOGIC_PRECEDENCE, TokenKind::GreaterEquals, None, binary, None),
        PrecedenceRule::rule(LOGIC_PRECEDENCE, TokenKind::Greater, None, binary, None),
        PrecedenceRule::rule(LOGIC_PRECEDENCE, TokenKind::EqualsEquals, None, binary, None),
        // primaries
        PrecedenceRule::rule(
            PRIMARY_PRECEDENCE,
            TokenKind::Bang,
            Some(LhsParseFunction::UnaryPrefix),
            None,
            None,
        ),
        PrecedenceRule::rule(PRIMARY_PRECEDENCE, TokenKind::IntegerLiteral, primary, None, None),
        PrecedenceRule::rule(PRIMARY_PRECEDENCE, TokenKind::FloatLiteral, primary, None, None),
        PrecedenceRule::rule(PRIMARY_PRECEDENCE, TokenKind::GlyphLiteral, primary, None, None),
        PrecedenceRule::rule(PRIMARY_PRECEDENCE, TokenKind::StringLiteral, primary, None, None),
        PrecedenceRule::rule(PRIMARY_PRECEDENCE, TokenKind::Identifier, primary, None, None),
        PrecedenceRule::rule(PRIMARY_PRECEDENCE, TokenKind::True, primary, None, None),
        PrecedenceRule::rule(PRIMARY_PRECEDENCE, TokenKind::False, primary, None, None),
        PrecedenceRule::rule(
            NO_PRECEDENCE,
            TokenKind::LeftParenthesis,
            primary,
            None,
            Some(RhsParseFunction::UnarySuffix),
        ),
        PrecedenceRule::rule(NO_PRECEDENCE, TokenKind::LeftBrace, primary, None, None),
        PrecedenceRule::rule(
            NO_PRECEDENCE,
            TokenKind::Dot,
            None,
            None,
            Some(RhsParseFunction::UnarySuffix),
        ),
    ];
    assert(table@.len() == 20);
    assert(table[0].token_kind == TokenKind::Star);
    assert(table[1].token_kind == TokenKind::Slash);
    assert(table[2].token_kind == TokenKind::Plus);
    assert(table[3].token_kind == TokenKind::Minus);
    assert(table[4].token_kind == TokenKind::LessEquals);
    assert(table[5].token_kind == TokenKind::Less);
    assert(table[6].token_kind == TokenKind::GreaterEquals);
    assert(table[7].token_kind == TokenKind::Greater);
    assert(table[8].token_kind == TokenKind::EqualsEquals);
    assert(table[9].token_kind == TokenKind::Bang);
    assert(table[10].token_kind == TokenKind::IntegerLiteral);
    assert(table[11].token_kind == TokenKind::FloatLiteral);
    assert(table[12].token_kind == TokenKind::GlyphLiteral);
    assert(table[13].token_kind == TokenKind::StringLiteral);
    assert(table[14].token_kind == TokenKind::Identifier);
    assert(table[15].token_kind == TokenKind::True);
    assert(table[16].token_kind == TokenKind::False);
    assert(table[17].token_kind == TokenKind::LeftParenthesis);
    assert(table[18].token_kind == TokenKind::LeftBrace);
    assert(table[19].token_kind == TokenKind::Dot);
    assert forall|i: int, j: int| 0 <= i < j < table.len() implies #[trigger] table[i].token_kind
        != #[trigger] table[j].token_kind by {
        assert(0 <= i < 20 && 0 <= j < 20);
    }
    assert forall|k: TokenKind| rule_of(k) is Some implies exists|i: int| 0 <= i < table.len() && #[trigger] table[i].token_kind == k by {
        if k == TokenKind::Star { assert(table[0].token_kind == k); }
        else if k == TokenKind::Slash { assert(table[1].token_kind == k); }
        else if k == TokenKind::Plus { assert(table[2].token_kind == k); }
        else if k == TokenKind::Minus { assert(table[3].token_kind == k); }
        else if k == TokenKind::LessEquals { assert(table[4].token_kind == k); }
        else if k == TokenKind::Less { assert(table[5].token_kind == k); }
        else if k == TokenKind::GreaterEquals { assert(table[6].token_kind == k); }
        else if k == TokenKind::Greater { assert(table[7].token_kind == k); }
        else if k == TokenKind::EqualsEquals { assert(table[8].token_kind == k); }
        else if k == TokenKind::Bang { assert(table[9].token_kind == k); }
        else if k == TokenKind::IntegerLiteral { assert(table[10].token_kind == k); }
        else if k == TokenKind::FloatLiteral { assert(table[11].token_kind == k); }
        else if k == TokenKind::GlyphLiteral { assert(table[12].token_kind == k); }
        else if k == TokenKind::StringLiteral { assert(table[13].token_kind == k); }
        else if k == TokenKind::Identifier { assert(table[14].token_kind == k); }
        else if k == TokenKind::True { assert(table[15].token_kind == k); }
        else if k == TokenKind::False { assert(table[16].token_kind == k); }
        else if k == TokenKind::LeftParenthesis { assert(table[17].token_kind == k); }
        else if k == TokenKind::LeftBrace { assert(table[18].token_kind == k); }
        else if k == TokenKind::Dot { assert(table[19].token_kind == k); }
    }
    table
}

/// The rule of `kind` in `table`, if it has one.
fn find_rule(table: &Vec<PrecedenceRule>, kind: TokenKind) -> (r: Option<PrecedenceRule>)
    requires
        forall|i: int| 0 <= i < table.len() ==> rule_of(#[trigger] table[i].token_kind) == Some(table[i]@),
        forall|k: TokenKind| rule_of(k) is Some ==> exists|i: int| 0 <= i < table.len() && #[trigger] table[i].token_kind == k,
    ensures
        match r {
            Some(rule) => rule_of(kind) == Some(rule@),
            None => rule_of(kind) is None,
        },
{
    let mut i: usize = 0;
    while i < table.len()
        invariant
            i <= table.len(),
            forall|j: int| 0 <= j < i ==> table[j].token_kind != kind,
            forall|j: int| 0 <= j < table.len() ==> rule_of(#[trigger] table[j].token_kind) == Some(table[j]@),
            forall|k: TokenKind| rule_of(k) is Some ==> exists|j: int| 0 <= j < table.len() && #[trigger] table[j].token_kind == k,
        decreases table.len() - i,
    {
        if table[i].token_kind == kind {
            assert(rule_of(table[i as int].token_kind) == Some(table[i as int]@));
            return Some(table[i]);
        }
        i = i + 1;
    }
    None
}

/// The prefix parse of `token_kind`, if any.
fn get_prefix(token_kind: TokenKind) -> (r: Option<LhsParseFunction>)
    ensures
        r == prefix_of(token_kind),
{
    let table = build_precedence_rules_table();
    match find_rule(&table, token_kind) {
        Some(rule) => rule.unary_prefix,
        None => None,
    }
}

/// The binary parse of `token_kind`, if any.
fn get_binary(token_kind: TokenKind) -> (r: Option<RhsParseFunction>)
    ensures
        r == binary_of(token_kind),
{
    let table = build_precedence_rules_table();
    match find_rule(&table, token_kind) {
        Some(rule) => rule.binary,
        None => None,
    }
}

/// The suffix parse of `token_kind`, if any.
fn get_suffix(token_kind: TokenKind) -> (r: Option<RhsParseFunction>)
    ensures
        r == suffix_of(token_kind),
{
    let table = build_precedence_rules_table();
    match find_rule(&table, token_kind) {
        Some(rule) => rule.unary_suffix,
        None => None,
    }
}

/// The precedence of `token_kind`; kinds without a rule get `NO_PRECEDENCE`.
fn get_precedence(token_kind: TokenKind) -> (r: PrecedenceLevel)
    ensures
        r == precedence_of(token_kind),
        r >= 1,
{
    let table = build_precedence_rules_table();
    match find_rule(&table, token_kind) {
        Some(rule) => rule.precedence,
        None => NO_PRECEDENCE,
    }
}

/// The parser state after a grammar function: well formed, over the same tokens,
/// with no token given back, and still recording each consumed token once.
pub open spec fn moved_on(before: ParserModel, after: ParserModel) -> bool {
    &&& after.wf()
    &&& after.tokens == before.tokens
    &&& after.consumed >= before.consumed
    &&& accounts_for_tokens(before) ==> accounts_for_tokens(after)
    &&& before.root is None ==> after.root is None
    &&& after.events.len() >= before.events.len()
}

/// A grammar function that parses one node: it leaves as many nodes open as it found,
/// has handed out the implicit root node, and has recorded events.
pub open spec fn parsed_a_node(before: ParserModel, after: ParserModel) -> bool {
    &&& open_nodes(after) == open_nodes(before)
    &&& after.root is None
    &&& after.events.len() > before.events.len()
}

/// The last event closes a node.
pub open spec fn ends_a_node(m: ParserModel) -> bool {
    m.events.len() > 0 && m.events.last() is EndNode
}

/// Parses an expression.
pub fn expr(p: &mut Parser) -> (c: CompletedMarker)
    requires
        old(p)@.wf(),
        spec_expr(old(p)@) is Some,
    ensures
        parsed_a_node(old(p)@, final(p)@),
        ends_a_node(final(p)@),
        moved_on(old(p)@, final(p)@),
        spec_expr(old(p)@) == Some((final(p)@, c@)),
    decreases rest(old(p)@), 10nat,
{
    parse_expr(p, LOGIC_PRECEDENCE)
}

fn error_node(p: &mut Parser, message: &'static str) -> (c: CompletedMarker)
    requires
        old(p)@.wf(),
        spec_error_node(old(p)@, message) is Some,
    ensures
        parsed_a_node(old(p)@, final(p)@),
        ends_a_node(final(p)@),
        moved_on(old(p)@, final(p)@),
        final(p)@.consumed == old(p)@.consumed,
        spec_error_node(old(p)@, message) == Some((final(p)@, c@)),
{
    let marker = p.begin_node();
    p.end_node(marker, SyntaxKind::Error(message))
}

fn single_token_node(p: &mut Parser, kind: SyntaxKind) -> (c: CompletedMarker)
    requires
        old(p)@.wf(),
        spec_single_token_node(old(p)@, kind) is Some,
    ensures
        parsed_a_node(old(p)@, final(p)@),
        ends_a_node(final(p)@),
        moved_on(old(p)@, final(p)@),
        final(p)@.consumed > old(p)@.consumed,
        spec_single_token_node(old(p)@, kind) == Some((final(p)@, c@)),
{
    let node = p.begin_node();
    let ghost m1 = p@;
    let current = p.current();
    p.token(current);
    proof {
        lemma_consume_progress(m1, ParseEvent::Token { kind: m1.current(), length: m1.current_token().length });
    }
    p.end_node(node, kind)
}

fn parse_expr(p: &mut Parser, precedence: PrecedenceLevel) -> (c: CompletedMarker)
    requires
        old(p)@.wf(),
        spec_parse_expr(old(p)@, precedence as nat) is Some,
    ensures
        parsed_a_node(old(p)@, final(p)@),
        ends_a_node(final(p)@),
        moved_on(old(p)@, final(p)@),
        spec_parse_expr(old(p)@, precedence as nat) == Some((final(p)@, c@)),
    decreases rest(old(p)@), 9nat,
{
    let ghost m0 = p@;
    let prefix_parser = match get_prefix(p.current()) {
        Some(prefix_parser) => prefix_parser,
        None => {
            return error_node(p, "Expected expression");
        },
    };
    let mut lhs = match prefix_parser {
        LhsParseFunction::UnaryPrefix => unary_prefix(p),
        LhsParseFunction::PrimaryExpr => primary_expr(p),
    };
    proof {
        lemma_rest_monotone(m0, p@);
    }
    while precedence >= get_precedence(p.current())
        invariant
            m0 == old(p)@,
            moved_on(m0, p@),
            rest(p@) <= rest(m0),
            spec_parse_expr(m0, precedence as nat) is Some,
            spec_parse_expr_loop(p@, precedence as nat, lhs@) == spec_parse_expr(m0, precedence as nat),
            ends_a_node(p@),
            parsed_a_node(m0, p@),
        decreases rest(p@),
    {
        let ghost before = p@;
        proof {
            lemma_current_within(before);
        }
        match get_binary(p.current()) {
            Some(RhsParseFunction::BinaryExpr) => {
                lhs = binary_expr(p, lhs);
            },
            Some(RhsParseFunction::UnarySuffix) => {
                lhs = unary_suffix(p, lhs);
            },
            None => {
                assert(false);
            },
        }
        proof {
            lemma_rest_monotone(before, p@);
        }
    }
    lhs
}

fn binary_expr(p: &mut Parser, lhs: CompletedMarker) -> (c: CompletedMarker)
    requires
        old(p)@.wf(),
        spec_binary_expr(old(p)@, lhs@) is Some,
    ensures
        parsed_a_node(old(p)@, final(p)@),
        ends_a_node(final(p)@),
        moved_on(old(p)@, final(p)@),
        final(p)@.consumed > old(p)@.consumed,
        spec_binary_expr(old(p)@, lhs@) == Some((final(p)@, c@)),
    decreases rest(old(p)@), 3nat,
{
    let mut lhs = lhs;
    let marker = p.begin_node();
    p.precede_node(&mut lhs, &marker);
    let operator = p.current();
    let ghost m2 = p@;
    p.token(operator);
    proof {
        lemma_consume_progress(m2, ParseEvent::Token { kind: m2.current(), length: m2.current_token().length });
    }
    parse_expr(p, get_precedence(operator) - 1);
    p.end_node(marker, SyntaxKind::BinaryExpr)
}

fn unary_prefix(p: &mut Parser) -> (c: CompletedMarker)
    requires
        old(p)@.wf(),
        spec_unary_prefix(old(p)@) is Some,
    ensures
        parsed_a_node(old(p)@, final(p)@),
        ends_a_node(final(p)@),
        moved_on(old(p)@, final(p)@),
        final(p)@.consumed > old(p)@.consumed,
        spec_unary_prefix(old(p)@) == Some((final(p)@, c@)),
    decreases rest(old(p)@), 8nat,
{
    let marker = p.begin_node();
    let operator = p.current();
    let ghost m1 = p@;
    p.token(operator);
    proof {
        lemma_consume_progress(m1, ParseEvent::Token { kind: m1.current(), length: m1.current_token().length });
    }
    parse_expr(p, get_precedence(operator) - 1);
    p.end_node(marker, SyntaxKind::UnaryExpr)
}

fn unary_suffix(p: &mut Parser, marker: CompletedMarker) -> (c: CompletedMarker)
    requires
        old(p)@.wf(),
        spec_unary_suffix(old(p)@, marker@) is Some,
    ensures
        parsed_a_node(old(p)@, final(p)@),
        ends_a_node(final(p)@),
        moved_on(old(p)@, final(p)@),
        old(p)@.current() == TokenKind::Dot || old(p)@.current() == TokenKind::LeftParenthesis
            ==> final(p)@.consumed > old(p)@.consumed,
        spec_unary_suffix(old(p)@, marker@) == Some((final(p)@, c@)),
    decreases rest(old(p)@), 3nat,
{
    match p.current() {
        TokenKind::Dot => object_property_expr(p, marker),
        TokenKind::LeftParenthesis => call_expr(p, marker),
        _ => error_node(p, "Expected unary suffix expression, got {:?}"),
    }
}

fn grouping_expr(p: &mut Parser) -> (c: CompletedMarker)
    requires
        old(p)@.wf(),
        spec_grouping_expr(old(p)@) is Some,
    ensures
        parsed_a_node(old(p)@, final(p)@),
        ends_a_node(final(p)@),
        moved_on(old(p)@, final(p)@),
        spec_grouping_expr(old(p)@) == Some((final(p)@, c@)),
    decreases rest(old(p)@), 5nat,
{
    let node = p.begin_node();
    let ghost m1 = p@;
    p.token_if(TokenKind::LeftParenthesis);
    proof {
        lemma_consume_progress(m1, ParseEvent::Token { kind: m1.current(), length: m1.current_token().length });
    }
    expr(p);
    let ghost m3 = p@;
    p.expect_token_kind(TokenKind::RightParenthesis, "Expected ')' to close grouping");
    proof {
        lemma_expect_progress(m3, TokenKind::RightParenthesis, "Expected ')' to close grouping");
    }
    p.end_node(node, SyntaxKind::GroupingExpr)
}

fn primary_expr(p: &mut Parser) -> (c: CompletedMarker)
    requires
        old(p)@.wf(),
        spec_primary_expr(old(p)@) is Some,
    ensures
        parsed_a_node(old(p)@, final(p)@),
        ends_a_node(final(p)@),
        moved_on(old(p)@, final(p)@),
        spec_primary_expr(old(p)@) == Some((final(p)@, c@)),
    decreases rest(old(p)@), 8nat,
{
    let ghost m0 = p@;
    let mut completed = match p.current() {
        TokenKind::IntegerLiteral => single_token_node(p, SyntaxKind::PrimitiveLiteralExpr),
        TokenKind::FloatLiteral => single_token_node(p, SyntaxKind::PrimitiveLiteralExpr),
        TokenKind::GlyphLiteral => single_token_node(p, SyntaxKind::PrimitiveLiteralExpr),
        TokenKind::StringLiteral => single_token_node(p, SyntaxKind::PrimitiveLiteralExpr),
        TokenKind::True => single_token_node(p, SyntaxKind::PrimitiveLiteralExpr),
        TokenKind::False => single_token_node(p, SyntaxKind::PrimitiveLiteralExpr),
        TokenKind::LeftParenthesis => grouping_expr(p),
        TokenKind::Identifier => single_token_node(p, SyntaxKind::VariableExpr),
        TokenKind::LeftBrace => object_literal_expr(p),
        _ => error_node(p, "Expected primary expression"),
    };
    proof {
        lemma_rest_monotone(m0, p@);
    }
    while get_suffix(p.current()).is_some()
        invariant
            m0 == old(p)@,
            moved_on(m0, p@),
            rest(p@) <= rest(m0),
            spec_primary_expr(m0) is Some,
            spec_suffix_loop(p@, completed@) == spec_primary_expr(m0),
            ends_a_node(p@),
            parsed_a_node(m0, p@),
        decreases rest(p@),
    {
        let ghost before = p@;
        proof {
            lemma_current_within(before);
        }
        match get_suffix(p.current()) {
            Some(RhsParseFunction::UnarySuffix) => {
                completed = unary_suffix(p, completed);
            },
            Some(RhsParseFunction::BinaryExpr) => {
                completed = binary_expr(p, completed);
            },
            None => {
                assert(false);
            },
        }
        proof {
            lemma_rest_monotone(before, p@);
        }
    }
    completed
}

fn object_property_expr(p: &mut Parser, node: CompletedMarker) -> (c: CompletedMarker)
    requires
        old(p)@.wf(),
        spec_object_property_expr(old(p)@, node@) is Some,
    ensures
        open_nodes(final(p)@) == open_nodes(old(p)@),
        old(p)@.current() == TokenKind::Dot ==> parsed_a_node(old(p)@, final(p)@),
        old(p)@.current() == TokenKind::Dot ==> ends_a_node(final(p)@),
        moved_on(old(p)@, final(p)@),
        old(p)@.current() == TokenKind::Dot ==> final(p)@.consumed > old(p)@.consumed,
        spec_object_property_expr(old(p)@, node@) == Some((final(p)@, c@)),
{
    let ghost m0 = p@;
    let mut previous = node;
    while p.current() == TokenKind::Dot
        invariant
            moved_on(m0, p@),
            m0.current() == TokenKind::Dot && p@.consumed == m0.consumed ==> p@ == m0,
            spec_object_property_expr(m0, node@) is Some,
            spec_object_property_expr(p@, previous@) == spec_object_property_expr(m0, node@),
            p@.consumed > m0.consumed ==> ends_a_node(p@),
            open_nodes(p@) == open_nodes(m0),
            p@.consumed > m0.consumed ==> parsed_a_node(m0, p@),
        decreases rest(p@),
    {
        let ghost before = p@;
        proof {
            lemma_current_within(before);
        }
        let next = p.begin_node();
        p.precede_node(&mut previous, &next);
        let ghost m2 = p@;
        p.token(TokenKind::Dot);
        proof {
            lemma_consume_progress(m2, ParseEvent::Token { kind: m2.current(), length: m2.current_token().length });
        }
        let ghost m3 = p@;
        p.token(TokenKind::Identifier);
        proof {
            lemma_consume_progress(m3, ParseEvent::Token { kind: m3.current(), length: m3.current_token().length });
        }
        previous = p.end_node(next, SyntaxKind::ObjectPropertyExpr);
        proof {
            lemma_rest_monotone(before, p@);
        }
    }
    previous
}

#[verifier::rlimit(40)]
fn object_literal_expr(p: &mut Parser) -> (c: CompletedMarker)
    requires
        old(p)@.wf(),
        spec_object_literal_expr(old(p)@) is Some,
    ensures
        parsed_a_node(old(p)@, final(p)@),
        ends_a_node(final(p)@),
        moved_on(old(p)@, final(p)@),
        spec_object_literal_expr(old(p)@) == Some((final(p)@, c@)),
    decreases rest(old(p)@), 5nat,
{
    let ghost m0 = p@;
    let node = p.begin_node();
    let ghost m1 = p@;
    p.token(TokenKind::LeftBrace);
    proof {
        lemma_consume_progress(m1, ParseEvent::Token { kind: m1.current(), length: m1.current_token().length });
    }
    let ghost m2 = p@;
    if p.current() == TokenKind::Identifier {
        p.token(TokenKind::Identifier);
        proof {
            lemma_consume_progress(m2, ParseEvent::Token { kind: m2.current(), length: m2.current_token().length });
        }
        let ghost m3 = p@;
        p.token(TokenKind::Colon);
        proof {
            lemma_consume_progress(m3, ParseEvent::Token { kind: m3.current(), length: m3.current_token().length });
        }
        expr(p);
    }
    proof {
        lemma_rest_monotone(m0, p@);
    }
    let ghost m6 = p@;
    while p.current() == TokenKind::Comma && p.current() != TokenKind::EndOfFile
        invariant
            m0 == old(p)@,
            moved_on(m0, p@),
            rest(p@) <= rest(m0),
            node.spec_index() == m0.begin().0,
            open_nodes(p@) == open_nodes(m0) + 1,
            p@.root is None,
            spec_object_literal_expr(m0) is Some,
            spec_object_fields(p@) == spec_object_fields(m6),
            spec_object_literal_expr(m0) == match spec_object_fields(m6) {
                Some(m7) => match step_token(m7, TokenKind::RightBrace) {
                    Some(m8) => step_end(m8, m0.begin().0, SyntaxKind::ObjectLiteralExpr),
                    None => None,
                },
                None => None,
            },
        decreases rest(p@),
    {
        let ghost before = p@;
        proof {
            lemma_current_within(before);
        }
        p.token(TokenKind::Comma);
        proof {
            lemma_consume_progress(before, ParseEvent::Token { kind: before.current(), length: before.current_token().length });
        }
        let ghost a = p@;
        p.token(TokenKind::Identifier);
        proof {
            lemma_consume_progress(a, ParseEvent::Token { kind: a.current(), length: a.current_token().length });
        }
        let ghost b = p@;
        p.token(TokenKind::Colon);
        proof {
            lemma_consume_progress(b, ParseEvent::Token { kind: b.current(), length: b.current_token().length });
        }
        expr(p);
        proof {
            lemma_rest_monotone(before, p@);
        }
    }
    let ghost m7 = p@;
    p.token(TokenKind::RightBrace);
    proof {
        lemma_consume_progress(m7, ParseEvent::Token { kind: m7.current(), length: m7.current_token().length });
    }
    p.end_node(node, SyntaxKind::ObjectLiteralExpr)
}

fn call_expr(p: &mut Parser, lhs: CompletedMarker) -> (c: CompletedMarker)
    requires
        old(p)@.wf(),
        spec_call_expr(old(p)@, lhs@) is Some,
    ensures
        parsed_a_node(old(p)@, final(p)@),
        ends_a_node(final(p)@),
        moved_on(old(p)@, final(p)@),
        final(p)@.consumed > old(p)@.consumed,
        spec_call_expr(old(p)@, lhs@) == Some((final(p)@, c@)),
    decreases rest(old(p)@), 2nat,
{
    let ghost m0 = p@;
    let mut lhs = lhs;
    let call_begin = p.begin_node();
    p.precede_node(&mut lhs, &call_begin);
    let ghost m2 = p@;
    p.expect_token_kind(TokenKind::LeftParenthesis, "Expected '('");
    proof {
        lemma_expect_progress(m2, TokenKind::LeftParenthesis, "Expected '('");
    }
    if p.current() != TokenKind::EndOfFile && p.current() != TokenKind::RightParenthesis {
        expr(p);
    }
    proof {
        lemma_rest_monotone(m0, p@);
    }
    let ghost m5 = p@;
    while p.current() != TokenKind::EndOfFile && p.current() != TokenKind::RightParenthesis
        invariant
            m0 == old(p)@,
            moved_on(m0, p@),
            rest(p@) <= rest(m0),
            p@.consumed > m0.consumed,
            call_begin.spec_index() == m0.begin().0,
            open_nodes(p@) == open_nodes(m0) + 1,
            p@.root is None,
            spec_call_expr(m0, lhs@) is Some,
            spec_call_arguments(p@) == spec_call_arguments(m5),
            spec_call_expr(m0, lhs@) == match spec_call_arguments(m5) {
                Some(m6) => match step_expect(m6, TokenKind::RightParenthesis, "Expected ')'") {
                    Some(m7) => step_end(m7, m0.begin().0, SyntaxKind::FunctionCallExpr),
                    None => None,
                },
                None => None,
            },
        decreases rest(p@),
    {
        let ghost before = p@;
        proof {
            lemma_current_within(before);
        }
        p.expect_token_kind(TokenKind::Comma, "Expected ','");
        proof {
            lemma_expect_progress(before, TokenKind::Comma, "Expected ','");
        }
        expr(p);
        proof {
            lemma_rest_monotone(before, p@);
        }
    }
    let ghost m6 = p@;
    p.expect_token_kind(TokenKind::RightParenthesis, "Expected ')'");
    proof {
        lemma_expect_progress(m6, TokenKind::RightParenthesis, "Expected ')'");
    }
    p.end_node(call_begin, SyntaxKind::FunctionCallExpr)
}

/// A token that is a whole operand on its own: a literal or a name.
pub open spec fn single_token_operand(k: TokenKind) -> bool {
    k == TokenKind::IntegerLiteral || k == TokenKind::FloatLiteral || k == TokenKind::GlyphLiteral
        || k == TokenKind::StringLiteral || k == TokenKind::True || k == TokenKind::False || k
        == TokenKind::Identifier
}

/// Binary operators of equal precedence associate to the left, and a looser operator
/// binds after a tighter one: when a binary operator is followed by a one-token operand
/// and then by a binary operator of equal or looser precedence, the binary expression
/// ends right after that operand, before the second operator, which is left to the
/// enclosing expression (so in `a - b - c` the first `-` node becomes the left operand of
/// the second).
pub proof fn law_binary_operators_associate_to_the_left(m: ParserModel, lhs: Node)
    requires
        m.wf(),
        m.root is None,
        lhs.0 < m.events.len(),
        m.events[lhs.0 as int] is BeginNode,
        m.consumed + 2 < m.tokens.len(),
        m.consumed + 3 < usize::MAX,
        binary_of(m.current()) == Some(RhsParseFunction::BinaryExpr),
        single_token_operand(m.tokens[(m.consumed + 1) as int].kind),
        binary_of(m.tokens[(m.consumed + 2) as int].kind) == Some(RhsParseFunction::BinaryExpr),
        precedence_of(m.tokens[(m.consumed + 2) as int].kind) >= precedence_of(m.current()),
    ensures
        spec_binary_expr(m, lhs) matches Some((after, _)) && after.consumed == m.consumed + 2
            && after.current() == m.tokens[(m.consumed + 2) as int].kind,
{
    let c: int = m.consumed as int;
    let operator = m.current();
    let second = m.tokens[c + 2].kind;
    let operand = m.tokens[c + 1].kind;
    assert(!spec_is_trivia(operand));
    assert(!spec_is_trivia(second));
    let (i, m1) = m.begin();
    assert(i == m.events.len());
    assert(m1.events[lhs.0 as int] == m.events[lhs.0 as int]);
    let m2 = step_precede(m1, lhs, i)->0;
    assert(step_precede(m1, lhs, i) is Some);
    assert(m2.current() == operator);
    assert(m2.events[i as int] is BeginNode);
    assert(trivia_run(m.tokens, c + 1) == 0);
    let m3 = m2.take_token();
    assert(m3.consumed == c + 1);
    assert(m3.events.subrange(0, m2.events.len() as int) =~= m2.events);
    assert(m3.current() == operand);
    assert(prefix_of(operand) == Some(LhsParseFunction::PrimaryExpr));
    let (j, m4) = m3.begin();
    assert(trivia_run(m.tokens, c + 2) == 0);
    let m5 = m4.take_token();
    assert(m5.consumed == c + 2);
    assert(m5.events.subrange(0, m4.events.len() as int) =~= m4.events);
    assert(m5.events[j as int] is BeginNode);
    let kind = if operand == TokenKind::Identifier {
        SyntaxKind::VariableExpr
    } else {
        SyntaxKind::PrimitiveLiteralExpr
    };
    assert(spec_single_token_node(m3, kind) == step_end(m5, j, kind));
    let (m6, node) = step_end(m5, j, kind)->0;
    assert(m6.current() == second);
    assert(suffix_of(second) is None);
    assert(spec_suffix_loop(m6, node) == Some((m6, node)));
    assert(spec_primary_expr(m3) == Some((m6, node)));
    assert(spec_parse_expr_loop(m6, (precedence_of(operator) - 1) as nat, node) == Some((m6, node)));
    assert(spec_parse_expr(m3, (precedence_of(operator) - 1) as nat) == Some((m6, node)));
    assert(m6.events[i as int] is BeginNode) by {
        assert(m4.events.subrange(0, m3.events.len() as int) =~= m3.events);
        assert(m6.events[i as int] == m5.events[i as int]);
        assert(m5.events[i as int] == m4.events[i as int]);
        assert(m4.events[i as int] == m3.events[i as int]);
        assert(m3.events[i as int] == m2.events[i as int]);
    }
}

} // verus!
