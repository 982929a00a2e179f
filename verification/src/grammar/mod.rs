//! The newt grammar: a recursive descent over the parser's tokens that records the
//! events of a syntax tree.
pub mod steps;
pub mod expr;
pub mod stmt;

use vstd::prelude::*;
use crate::grammar::expr::{expr, moved_on, spec_expr};
use crate::grammar::steps::{rest, step_end, lemma_current_within, lemma_rest_monotone};
use crate::grammar::stmt::{stmt, spec_stmt};
use crate::parse::parser::{
    CompletedParsing, Parser, ParserModel, accounts_for_tokens, kind_at, node_balance, open_nodes,
    recorded_lengths, token_lengths,
    token_event_count,
};
use crate::syntax::SyntaxKind;
use crate::parse::parse_event::ParseEvent;
use crate::tokens::{Token, TokenKind, spans_cover, spec_tokenize, token_at, tokens_from, law_tokens_cover_text};

verus! {

/// Statements up to the end of file.
pub open spec fn spec_root_stmts(m: ParserModel) -> Option<ParserModel>
    decreases rest(m),
{
    if m.current() == TokenKind::EndOfFile {
        Some(m)
    } else {
        match spec_stmt(m) {
            Some(m1) => if rest(m1) < rest(m) {
                spec_root_stmts(m1)
            } else {
                None
            },
            None => None,
        }
    }
}

/// A program: its statements in one statement-list node, then the end of parsing.
pub open spec fn spec_root_stmt(m: ParserModel) -> Option<ParserModel> {
    let (node, m1) = m.begin();
    match spec_root_stmts(m1) {
        Some(m2) => match step_end(m2, node, SyntaxKind::StmtListStmt) {
            Some((m3, _)) => Some(m3.finish()),
            None => None,
        },
        None => None,
    }
}

/// A single expression, then the end of parsing.
pub open spec fn spec_root_expr(m: ParserModel) -> Option<ParserModel> {
    match spec_expr(m) {
        Some((m1, _)) => Some(m1.finish()),
        None => None,
    }
}

/// Parses a whole program: every statement up to the end of file inside one
/// statement-list node, then anything left as an error.
pub fn root_stmt(p: Parser) -> (c: CompletedParsing)
    requires
        p@.wf(),
        spec_root_stmt(p@) is Some,
    ensures
        spec_root_stmt(p@) matches Some(m) && c.events@ == m.events && c.consumed_tokens == m.consumed,
        accounts_for_tokens(p@) ==> token_event_count(c.events@) == c.consumed_tokens,
        accounts_for_tokens(p@) ==> recorded_lengths(c.events@) == token_lengths(p@.tokens, c.consumed_tokens as nat),
        kind_at(p@.tokens, c.consumed_tokens as int) == TokenKind::EndOfFile,
        open_nodes(p@) == 0 && p@.root is Some ==> node_balance(c.events@) == 0,
{
    let mut p = p;
    let ghost m0 = p@;
    let node = p.begin_node();
    let ghost m1 = p@;
    while p.current() != TokenKind::EndOfFile
        invariant
            accounts_for_tokens(m0) ==> accounts_for_tokens(m1),
            moved_on(m1, p@),
            open_nodes(p@) == open_nodes(m1),
            m1.root is None,
            spec_root_stmts(m1) is Some,
            spec_root_stmts(p@) == spec_root_stmts(m1),
        decreases rest(p@),
    {
        let ghost before = p@;
        proof {
            lemma_current_within(before);
        }
        stmt(&mut p);
        proof {
            lemma_rest_monotone(before, p@);
        }
    }
    p.end_node(node, SyntaxKind::StmtListStmt);
    p.end_parsing()
}

/// Parses a single expression, then anything left as an error.
pub fn root_expr(p: Parser) -> (c: CompletedParsing)
    requires
        p@.wf(),
        spec_root_expr(p@) is Some,
    ensures
        spec_root_expr(p@) matches Some(m) && c.events@ == m.events && c.consumed_tokens == m.consumed,
        accounts_for_tokens(p@) ==> token_event_count(c.events@) == c.consumed_tokens,
        accounts_for_tokens(p@) ==> recorded_lengths(c.events@) == token_lengths(p@.tokens, c.consumed_tokens as nat),
        kind_at(p@.tokens, c.consumed_tokens as int) == TokenKind::EndOfFile,
        open_nodes(p@) == 0 && p@.root is Some ==> node_balance(c.events@) == 0,
{
    let mut p = p;
    expr(&mut p);
    p.end_parsing()
}

/// The sum of `lengths`.
pub open spec fn total_length(lengths: Seq<usize>) -> int
    decreases lengths.len(),
{
    if lengths.len() == 0 {
        0
    } else {
        total_length(lengths.drop_last()) + lengths.last()
    }
}

proof fn lemma_total_length_append(a: Seq<usize>, b: Seq<usize>)
    ensures
        total_length(a + b) == total_length(a) + total_length(b),
    decreases b.len(),
{
    if b.len() == 0 {
        assert(a + b =~= a);
    } else {
        assert((a + b).drop_last() =~= a + b.drop_last());
        lemma_total_length_append(a, b.drop_last());
    }
}

proof fn lemma_total_length_zeros(n: nat)
    ensures
        total_length(Seq::new(n, |i: int| 0usize)) == 0,
    decreases n,
{
    if n > 0 {
        assert(Seq::new(n, |i: int| 0usize).drop_last() =~= Seq::new((n - 1) as nat, |i: int| 0usize));
        lemma_total_length_zeros((n - 1) as nat);
    }
}

/// No token of a text is an end of file.
proof fn lemma_tokens_from_not_eof(s: Seq<char>, pos: int)
    requires
        0 <= pos <= s.len(),
    ensures
        forall|i: int| 0 <= i < tokens_from(s, pos).len() ==> (#[trigger] tokens_from(s, pos)[i]).0
            != TokenKind::EndOfFile,
    decreases s.len() - pos,
{
    if pos < s.len() {
        let (kind, length) = token_at(s, pos);
        crate::tokens::lemma_token_at_bounds(s, pos);
        lemma_tokens_from_not_eof(s, pos + length);
        let rest = tokens_from(s, pos + length);
        assert forall|i: int| 0 <= i < tokens_from(s, pos).len() implies (#[trigger] tokens_from(s, pos)[i]).0
            != TokenKind::EndOfFile by {
            if i > 0 {
                assert(tokens_from(s, pos)[i] == rest[i - 1]);
            }
        }
    }
}

/// The lengths of tokens that lie one after another from `start` to `end` add up to
/// `end - start`.
proof fn lemma_spans_total(tokens: Seq<Token>, start: nat, end: nat)
    requires
        spans_cover(tokens.map_values(|t: Token| t@), start, end),
    ensures
        total_length(tokens.map_values(|t: Token| t.length)) == end - start,
    decreases tokens.len(),
{
    let views = tokens.map_values(|t: Token| t@);
    let lengths = tokens.map_values(|t: Token| t.length);
    if tokens.len() == 0 {
    } else {
        let init = tokens.drop_last();
        let init_views = init.map_values(|t: Token| t@);
        assert(init_views =~= views.drop_last());
        assert(lengths.drop_last() =~= init.map_values(|t: Token| t.length));
        let last = tokens.last();
        assert(views.last() == last@);
        if init.len() > 0 {
            assert(spans_cover(init_views, start, last.offset as nat)) by {
                let n = views.len() - 1;
                assert(views[(n - 1) + 1].1 == views[n - 1].1 + views[n - 1].2);
                assert forall|i: int| 0 <= i < init_views.len() implies #[trigger] init_views[i].2 >= 1 by {
                    assert(views[i].2 >= 1);
                }
                assert forall|i: int| 0 <= i < init_views.len() - 1 implies #[trigger] init_views[i + 1].1
                    == init_views[i].1 + init_views[i].2 by {
                    assert(views[i + 1].1 == views[i].1 + views[i].2);
                }
            }
            lemma_spans_total(init, start, last.offset as nat);
        } else {
            assert(views[0].1 == start);
            assert(init.map_values(|t: Token| t.length) =~= Seq::<usize>::empty());
        }
        assert(lengths.last() == last.length);
        assert(last.offset + last.length == end);
        assert(total_length(lengths) == total_length(lengths.drop_last()) + lengths.last());
    }
}

/// Parsing the tokens of a text to the end of file, as `root_stmt` and `root_expr` do,
/// consumes every token of the text, records each of them once and in order, and the
/// recorded lengths add up to the length of the text.
pub proof fn law_parse_records_the_whole_text(
    text: Seq<char>,
    tokens: Seq<Token>,
    events: Seq<ParseEvent>,
    consumed: nat,
)
    requires
        tokens.map_values(|t: Token| t@) == spec_tokenize(text),
        recorded_lengths(events) == token_lengths(tokens, consumed),
        kind_at(tokens, consumed as int) == TokenKind::EndOfFile,
    ensures
        consumed >= tokens.len(),
        recorded_lengths(events).take(tokens.len() as int) == tokens.map_values(|t: Token| t.length),
        total_length(recorded_lengths(events)) == text.len(),
{
    let views = tokens.map_values(|t: Token| t@);
    lemma_tokens_from_not_eof(text, 0);
    if consumed < tokens.len() {
        assert(views[consumed as int].0 == tokens[consumed as int].kind);
        assert(false);
    }
    let lengths = tokens.map_values(|t: Token| t.length);
    let recorded = recorded_lengths(events);
    assert(recorded.take(tokens.len() as int) =~= lengths);
    let extra = (consumed - tokens.len()) as nat;
    assert(recorded =~= lengths + Seq::new(extra, |i: int| 0usize));
    lemma_total_length_append(lengths, Seq::new(extra, |i: int| 0usize));
    lemma_total_length_zeros(extra);
    law_tokens_cover_text(text);
    lemma_spans_total(tokens, 0, text.len());
}

} // verus!
