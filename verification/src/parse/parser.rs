//! The newt parser: a cursor over tokens that records parse events.
use vstd::prelude::*;
use crate::parse::marker::{CompletedMarker, Marker};
use crate::parse::parse_event::{ParseEvent, spec_tombstone};
use crate::syntax::SyntaxKind;
use crate::tokens::{StrTokenSource, Token, TokenKind, spec_is_trivia, token_or_eof};

verus! {

/// The abstract state of a parser: the tokens it reads, how many it has consumed,
/// the events recorded so far, whether it is recovering from an error, and the event
/// index of the implicit root node while that node has not been handed out.
#[verifier::ext_equal]
pub struct ParserModel {
    pub tokens: Seq<Token>,
    pub consumed: nat,
    pub events: Seq<ParseEvent>,
    pub panicking: bool,
    pub root: Option<nat>,
}

/// The kind of the token at `index`; end of file past the last token.
pub open spec fn kind_at(tokens: Seq<Token>, index: int) -> TokenKind {
    token_or_eof(tokens, index).kind
}

/// The number of consecutive trivia tokens from `index`.
pub open spec fn trivia_run(tokens: Seq<Token>, index: int) -> nat
    decreases tokens.len() - index,
{
    if 0 <= index < tokens.len() && spec_is_trivia(tokens[index].kind) {
        1 + trivia_run(tokens, index + 1)
    } else {
        0
    }
}

/// The number of tokens from `index` up to the end of file.
pub open spec fn tokens_until_eof(tokens: Seq<Token>, index: int) -> nat
    decreases tokens.len() - index,
{
    if 0 <= index < tokens.len() && tokens[index].kind != TokenKind::EndOfFile {
        1 + tokens_until_eof(tokens, index + 1)
    } else {
        0
    }
}

/// `Trivia` events for the `n` tokens from `index`.
pub open spec fn trivia_events(tokens: Seq<Token>, index: int, n: nat) -> Seq<ParseEvent> {
    Seq::new(
        n,
        |j: int| ParseEvent::Trivia { kind: tokens[index + j].kind, length: tokens[index + j].length },
    )
}

/// `event` with its node kind replaced by `kind`, when it opens a node.
pub open spec fn with_kind(event: ParseEvent, kind: SyntaxKind) -> ParseEvent {
    match event {
        ParseEvent::BeginNode { kind: _, is_forward_parent, forward_parent_offset } => {
            ParseEvent::BeginNode { kind, is_forward_parent, forward_parent_offset }
        },
        other => other,
    }
}

/// `event` with its forward parent offset replaced by `offset`, when it opens a node.
pub open spec fn with_forward_parent(event: ParseEvent, offset: usize) -> ParseEvent {
    match event {
        ParseEvent::BeginNode { kind, is_forward_parent, forward_parent_offset: _ } => {
            ParseEvent::BeginNode { kind, is_forward_parent, forward_parent_offset: Some(offset) }
        },
        other => other,
    }
}

impl ParserModel {
    /// The kind of the current token.
    pub open spec fn current(self) -> TokenKind {
        kind_at(self.tokens, self.consumed as int)
    }

    /// The current token.
    pub open spec fn current_token(self) -> Token {
        token_or_eof(self.tokens, self.consumed as int)
    }

    /// The implicit root node, while pending, opens at event 0 with a `BeginNode` event.
    pub open spec fn wf(self) -> bool {
        match self.root {
            Some(r) => r == 0 && r < self.events.len() && self.events[r as int] is BeginNode,
            None => true,
        }
    }

    /// Skips the trivia tokens at the cursor, recording a `Trivia` event for each.
    pub open spec fn eat_trivia(self) -> ParserModel {
        let n = trivia_run(self.tokens, self.consumed as int);
        ParserModel {
            consumed: self.consumed + n,
            events: self.events + trivia_events(self.tokens, self.consumed as int, n),
            ..self
        }
    }

    /// Consumes the current token, recording `event` for it, then skips trivia.
    pub open spec fn consume_as(self, event: ParseEvent) -> ParserModel {
        (ParserModel { consumed: self.consumed + 1, events: self.events.push(event), ..self }).eat_trivia()
    }

    /// Consumes the current token as a `Token` event of kind `kind`.
    pub open spec fn consume_token_as(self, kind: TokenKind) -> ParserModel {
        self.consume_as(ParseEvent::Token { kind, length: self.current_token().length })
    }

    /// Consumes the current token as a `Token` event of its own kind.
    pub open spec fn take_token(self) -> ParserModel {
        self.consume_token_as(self.current())
    }

    /// Opens a node: hands out the pending root node, or records a tombstone.
    /// Returns the index of the node's `BeginNode` event and the new state.
    pub open spec fn begin(self) -> (nat, ParserModel) {
        match self.root {
            Some(r) => (r, ParserModel { root: None, ..self }),
            None => (
                self.events.len(),
                ParserModel { events: self.events.push(spec_tombstone()), ..self },
            ),
        }
    }

    /// Closes the node opened at event `index`, giving it `kind`.
    pub open spec fn end(self, index: nat, kind: SyntaxKind) -> ParserModel {
        ParserModel {
            events: self.events.update(index as int, with_kind(self.events[index as int], kind)).push(
                ParseEvent::EndNode,
            ),
            ..self
        }
    }

    /// Wraps the current token in an error node carrying `message`.
    pub open spec fn report_error(self, message: &'static str) -> ParserModel {
        let (index, opened) = self.begin();
        opened.take_token().end(index, SyntaxKind::Error(message))
    }

    /// An unmet expectation: reports `message` and starts recovering, unless already
    /// recovering, in which case the current token becomes a tombstone token.
    pub open spec fn expect_failed(self, message: &'static str) -> ParserModel {
        if self.panicking {
            self.consume_token_as(TokenKind::TombStone)
        } else {
            (ParserModel { panicking: true, ..self }).report_error(message)
        }
    }

    /// Consumes a token of `kind` and stops recovering; otherwise the expectation fails.
    pub open spec fn expect(self, kind: TokenKind, message: &'static str) -> ParserModel {
        if self.current() == kind {
            ParserModel { panicking: false, ..self.take_token() }
        } else {
            self.expect_failed(message)
        }
    }

    /// At the end of parsing, wraps every token left before the end of file in an
    /// "Unexpected text" error node and closes the root node.
    pub open spec fn finish(self) -> ParserModel {
        if self.current() == TokenKind::EndOfFile {
            self
        } else {
            let cracked = if self.events.len() > 1 {
                ParserModel { events: self.events.drop_last(), ..self }
            } else {
                self
            };
            let (index, opened) = cracked.begin();
            let n = tokens_until_eof(self.tokens, self.consumed as int);
            let drained = ParserModel {
                consumed: opened.consumed + n,
                events: opened.events + trivia_events(self.tokens, self.consumed as int, n),
                ..opened
            };
            let closed = drained.end(index, SyntaxKind::Error("Unexpected text"));
            ParserModel { events: closed.events.push(ParseEvent::EndNode), ..closed }
        }
    }
}

/// Whether `event` records a token: a meaningful token or a trivia token.
pub open spec fn records_token(event: ParseEvent) -> bool {
    event is Token || event is Trivia
}

/// The length that `event` records: the token's length for a token or trivia event,
/// nothing for any other event.
pub open spec fn event_lengths(event: ParseEvent) -> Seq<usize> {
    match event {
        ParseEvent::Token { kind: _, length } => seq![length],
        ParseEvent::Trivia { kind: _, length } => seq![length],
        _ => Seq::empty(),
    }
}

/// The lengths recorded by the token and trivia events of `events`, in order.
pub open spec fn recorded_lengths(events: Seq<ParseEvent>) -> Seq<usize>
    decreases events.len(),
{
    if events.len() == 0 {
        Seq::empty()
    } else {
        recorded_lengths(events.drop_last()) + event_lengths(events.last())
    }
}

/// The lengths of the first `n` tokens of `tokens`.
pub open spec fn token_lengths(tokens: Seq<Token>, n: nat) -> Seq<usize> {
    Seq::new(n, |i: int| token_or_eof(tokens, i).length)
}

/// The number of events of `events` that record a token.
pub open spec fn token_event_count(events: Seq<ParseEvent>) -> nat
    decreases events.len(),
{
    if events.len() == 0 {
        0
    } else {
        token_event_count(events.drop_last()) + if records_token(events.last()) {
            1nat
        } else {
            0nat
        }
    }
}

proof fn lemma_token_event_count_append(a: Seq<ParseEvent>, b: Seq<ParseEvent>)
    ensures
        token_event_count(a + b) == token_event_count(a) + token_event_count(b),
        recorded_lengths(a + b) == recorded_lengths(a) + recorded_lengths(b),
    decreases b.len(),
{
    if b.len() > 0 {
        lemma_token_event_count_append(a, b.drop_last());
        assert((a + b).drop_last() =~= a + b.drop_last());
        assert(recorded_lengths(a + b) =~= recorded_lengths(a) + recorded_lengths(b));
    } else {
        assert(a + b =~= a);
        assert(recorded_lengths(a + b) =~= recorded_lengths(a) + recorded_lengths(b));
    }
}

/// The recorded lengths are one per token-recording event.
proof fn lemma_recorded_lengths_len(events: Seq<ParseEvent>)
    ensures
        recorded_lengths(events).len() == token_event_count(events),
    decreases events.len(),
{
    if events.len() > 0 {
        lemma_recorded_lengths_len(events.drop_last());
    }
}

proof fn lemma_token_event_count_trivia(tokens: Seq<Token>, index: int, n: nat)
    ensures
        token_event_count(trivia_events(tokens, index, n)) == n,
        recorded_lengths(trivia_events(tokens, index, n)) == Seq::new(n, |j: int| tokens[index + j].length),
    decreases n,
{
    if n > 0 {
        lemma_token_event_count_trivia(tokens, index, (n - 1) as nat);
        assert(trivia_events(tokens, index, n).drop_last() =~= trivia_events(tokens, index, (n - 1) as nat));
        assert(recorded_lengths(trivia_events(tokens, index, n)) =~= Seq::new(n, |j: int| tokens[index + j].length));
    } else {
        assert(recorded_lengths(trivia_events(tokens, index, n)) =~= Seq::new(n, |j: int| tokens[index + j].length));
    }
}

proof fn lemma_token_event_count_update(events: Seq<ParseEvent>, i: int, e: ParseEvent)
    requires
        0 <= i < events.len(),
        records_token(events[i]) == records_token(e),
        event_lengths(events[i]) == event_lengths(e),
    ensures
        token_event_count(events.update(i, e)) == token_event_count(events),
        recorded_lengths(events.update(i, e)) == recorded_lengths(events),
    decreases events.len(),
{
    let u = events.update(i, e);
    if i == events.len() - 1 {
        assert(u.drop_last() =~= events.drop_last());
    } else {
        lemma_token_event_count_update(events.drop_last(), i, e);
        assert(u.drop_last() =~= events.drop_last().update(i, e));
    }
}

proof fn lemma_token_event_count_push(events: Seq<ParseEvent>, e: ParseEvent)
    ensures
        token_event_count(events.push(e)) == token_event_count(events) + if records_token(e) {
            1nat
        } else {
            0nat
        },
        recorded_lengths(events.push(e)) == recorded_lengths(events) + event_lengths(e),
{
    assert(events.push(e).drop_last() =~= events);
}

/// Every token the parser has consumed is recorded by exactly one token or trivia event,
/// in order: the recorded lengths are the lengths of the consumed tokens.
pub open spec fn accounts_for_tokens(m: ParserModel) -> bool {
    recorded_lengths(m.events) == token_lengths(m.tokens, m.consumed)
}

/// Counting the token-recording events of a parse that accounts for its tokens gives
/// the number of tokens consumed.
proof fn lemma_accounts_count(m: ParserModel)
    requires
        accounts_for_tokens(m),
    ensures
        token_event_count(m.events) == m.consumed,
{
    lemma_recorded_lengths_len(m.events);
}

/// The tokens up to the end of file from `index` end at an end of file (or past the
/// last token).
proof fn lemma_until_eof_reaches_eof(tokens: Seq<Token>, index: int)
    requires
        0 <= index,
    ensures
        kind_at(tokens, index + tokens_until_eof(tokens, index)) == TokenKind::EndOfFile,
    decreases tokens.len() - index,
{
    if 0 <= index < tokens.len() && tokens[index].kind != TokenKind::EndOfFile {
        lemma_until_eof_reaches_eof(tokens, index + 1);
    }
}

/// Recording the `n` tokens from the consumed ones, all within the tokens, extends the
/// lengths of the consumed tokens by theirs.
proof fn lemma_token_lengths_extend(tokens: Seq<Token>, consumed: nat, n: nat)
    requires
        n > 0 ==> consumed + n <= tokens.len(),
    ensures
        token_lengths(tokens, consumed + n) == token_lengths(tokens, consumed) + Seq::new(
            n,
            |j: int| tokens[consumed + j].length,
        ),
{
    assert(token_lengths(tokens, consumed + n) =~= token_lengths(tokens, consumed) + Seq::new(
        n,
        |j: int| tokens[consumed + j].length,
    ));
}

proof fn lemma_eat_trivia_accounts(m: ParserModel)
    requires
        accounts_for_tokens(m),
    ensures
        accounts_for_tokens(m.eat_trivia()),
{
    let n = trivia_run(m.tokens, m.consumed as int);
    lemma_token_event_count_append(m.events, trivia_events(m.tokens, m.consumed as int, n));
    lemma_token_event_count_trivia(m.tokens, m.consumed as int, n);
    lemma_trivia_run_bound(m.tokens, m.consumed as int);
    lemma_token_lengths_extend(m.tokens, m.consumed, n);
}

proof fn lemma_consume_accounts(m: ParserModel, event: ParseEvent)
    requires
        accounts_for_tokens(m),
        event_lengths(event) == seq![m.current_token().length],
    ensures
        accounts_for_tokens(m.consume_as(event)),
{
    let pushed = ParserModel { consumed: m.consumed + 1, events: m.events.push(event), ..m };
    lemma_token_event_count_push(m.events, event);
    assert(token_lengths(m.tokens, m.consumed + 1) =~= token_lengths(m.tokens, m.consumed).push(
        m.current_token().length,
    ));
    assert(recorded_lengths(pushed.events) =~= token_lengths(m.tokens, m.consumed + 1));
    lemma_eat_trivia_accounts(pushed);
}

proof fn lemma_begin_accounts(m: ParserModel)
    requires
        accounts_for_tokens(m),
    ensures
        accounts_for_tokens(m.begin().1),
{
    lemma_token_event_count_push(m.events, spec_tombstone());
}

proof fn lemma_end_accounts(m: ParserModel, index: nat, kind: SyntaxKind)
    requires
        accounts_for_tokens(m),
        index < m.events.len(),
        m.events[index as int] is BeginNode,
    ensures
        accounts_for_tokens(m.end(index, kind)),
{
    let updated = m.events.update(index as int, with_kind(m.events[index as int], kind));
    lemma_token_event_count_update(m.events, index as int, with_kind(m.events[index as int], kind));
    lemma_token_event_count_push(updated, ParseEvent::EndNode);
}

proof fn lemma_finish_accounts(m: ParserModel)
    requires
        m.wf(),
        accounts_for_tokens(m),
        m.events.len() > 0,
        m.events.last() is EndNode,
    ensures
        accounts_for_tokens(m.finish()),
        token_event_count(m.finish().events) == m.finish().consumed,
{
    if m.current() != TokenKind::EndOfFile {
        let cracked = if m.events.len() > 1 {
            ParserModel { events: m.events.drop_last(), ..m }
        } else {
            m
        };
        assert(accounts_for_tokens(cracked)) by {
            if m.events.len() > 1 {
                assert(m.events == m.events.drop_last().push(m.events.last()));
                lemma_token_event_count_push(m.events.drop_last(), m.events.last());
            }
        }
        let (index, opened) = cracked.begin();
        lemma_begin_accounts(cracked);
        let n = tokens_until_eof(m.tokens, m.consumed as int);
        let drained = ParserModel {
            consumed: opened.consumed + n,
            events: opened.events + trivia_events(m.tokens, m.consumed as int, n),
            ..opened
        };
        lemma_token_event_count_append(opened.events, trivia_events(m.tokens, m.consumed as int, n));
        lemma_token_event_count_trivia(m.tokens, m.consumed as int, n);
        lemma_tokens_until_eof_bound(m.tokens, m.consumed as int);
        lemma_token_lengths_extend(m.tokens, m.consumed, n);
        assert(accounts_for_tokens(drained));
        assert(index < drained.events.len());
        assert(drained.events[index as int] == opened.events[index as int]);
        lemma_end_accounts(drained, index, SyntaxKind::Error("Unexpected text"));
        let closed = drained.end(index, SyntaxKind::Error("Unexpected text"));
        lemma_token_event_count_push(closed.events, ParseEvent::EndNode);
    }
    lemma_accounts_count(m.finish());
}

/// How `event` changes the number of open nodes: one more for a `BeginNode`, one fewer
/// for an `EndNode`.
pub open spec fn nesting(event: ParseEvent) -> int {
    match event {
        ParseEvent::BeginNode { .. } => 1,
        ParseEvent::EndNode => -1,
        _ => 0,
    }
}

/// The number of `BeginNode` events of `events` less the number of `EndNode` events.
pub open spec fn node_balance(events: Seq<ParseEvent>) -> int
    decreases events.len(),
{
    if events.len() == 0 {
        0
    } else {
        node_balance(events.drop_last()) + nesting(events.last())
    }
}

/// The nodes the grammar has opened and not yet closed: the events' balance, less the
/// implicit root node while it is still to be handed out.
pub open spec fn open_nodes(m: ParserModel) -> int {
    node_balance(m.events) - if m.root is Some {
        1int
    } else {
        0int
    }
}

proof fn lemma_node_balance_append(a: Seq<ParseEvent>, b: Seq<ParseEvent>)
    ensures
        node_balance(a + b) == node_balance(a) + node_balance(b),
    decreases b.len(),
{
    if b.len() > 0 {
        lemma_node_balance_append(a, b.drop_last());
        assert((a + b).drop_last() =~= a + b.drop_last());
    } else {
        assert(a + b =~= a);
    }
}

proof fn lemma_node_balance_trivia(tokens: Seq<Token>, index: int, n: nat)
    ensures
        node_balance(trivia_events(tokens, index, n)) == 0,
    decreases n,
{
    if n > 0 {
        lemma_node_balance_trivia(tokens, index, (n - 1) as nat);
        assert(trivia_events(tokens, index, n).drop_last() =~= trivia_events(tokens, index, (n - 1) as nat));
    }
}

proof fn lemma_node_balance_update(events: Seq<ParseEvent>, i: int, e: ParseEvent)
    requires
        0 <= i < events.len(),
        nesting(events[i]) == nesting(e),
    ensures
        node_balance(events.update(i, e)) == node_balance(events),
    decreases events.len(),
{
    let u = events.update(i, e);
    if i == events.len() - 1 {
        assert(u.drop_last() =~= events.drop_last());
    } else {
        lemma_node_balance_update(events.drop_last(), i, e);
        assert(u.drop_last() =~= events.drop_last().update(i, e));
    }
}

proof fn lemma_node_balance_push(events: Seq<ParseEvent>, e: ParseEvent)
    ensures
        node_balance(events.push(e)) == node_balance(events) + nesting(e),
{
    assert(events.push(e).drop_last() =~= events);
}

proof fn lemma_eat_trivia_open(m: ParserModel)
    ensures
        open_nodes(m.eat_trivia()) == open_nodes(m),
        m.eat_trivia().root == m.root,
        m.eat_trivia().events.len() >= m.events.len(),
{
    let n = trivia_run(m.tokens, m.consumed as int);
    lemma_node_balance_append(m.events, trivia_events(m.tokens, m.consumed as int, n));
    lemma_node_balance_trivia(m.tokens, m.consumed as int, n);
}

proof fn lemma_consume_open(m: ParserModel, event: ParseEvent)
    requires
        records_token(event),
    ensures
        open_nodes(m.consume_as(event)) == open_nodes(m),
        m.consume_as(event).root == m.root,
        m.consume_as(event).events.len() > m.events.len(),
{
    let pushed = ParserModel { consumed: m.consumed + 1, events: m.events.push(event), ..m };
    lemma_node_balance_push(m.events, event);
    lemma_eat_trivia_open(pushed);
}

proof fn lemma_begin_open(m: ParserModel)
    ensures
        open_nodes(m.begin().1) == open_nodes(m) + 1,
        m.begin().1.root is None,
        m.begin().1.events.len() >= m.events.len(),
{
    lemma_node_balance_push(m.events, spec_tombstone());
}

proof fn lemma_end_open(m: ParserModel, index: nat, kind: SyntaxKind)
    requires
        index < m.events.len(),
        m.events[index as int] is BeginNode,
    ensures
        open_nodes(m.end(index, kind)) == open_nodes(m) - 1,
        m.end(index, kind).root == m.root,
        m.end(index, kind).events.len() == m.events.len() + 1,
{
    let updated = m.events.update(index as int, with_kind(m.events[index as int], kind));
    lemma_node_balance_update(m.events, index as int, with_kind(m.events[index as int], kind));
    lemma_node_balance_push(updated, ParseEvent::EndNode);
}

proof fn lemma_report_error_open(m: ParserModel, message: &'static str)
    requires
        m.wf(),
    ensures
        open_nodes(m.report_error(message)) == open_nodes(m),
        m.root is None ==> m.report_error(message).root is None,
        m.report_error(message).events.len() > m.events.len(),
{
    let (i, opened) = m.begin();
    lemma_begin_open(m);
    lemma_consume_open(opened, ParseEvent::Token { kind: opened.current(), length: opened.current_token().length });
    let taken = opened.take_token();
    assert(taken.events =~= opened.events.push(
        ParseEvent::Token { kind: opened.current(), length: opened.current_token().length },
    ) + trivia_events(opened.tokens, (opened.consumed + 1) as int, trivia_run(opened.tokens, (opened.consumed + 1) as int)));
    assert(i < opened.events.len());
    assert(taken.events[i as int] == opened.events[i as int]);
    lemma_end_open(taken, i, SyntaxKind::Error(message));
}

/// Each step of the parser opens and closes nodes as its name says: opening a node adds
/// one open node, closing one removes one, and every other step, reporting an error
/// included, leaves the number of open nodes as it was.
pub proof fn law_parser_steps_keep_nodes_balanced(
    m: ParserModel,
    kind: TokenKind,
    message: &'static str,
    index: nat,
    node_kind: SyntaxKind,
)
    requires
        m.wf(),
    ensures
        open_nodes(m.eat_trivia()) == open_nodes(m),
        open_nodes(m.take_token()) == open_nodes(m),
        open_nodes(m.consume_token_as(kind)) == open_nodes(m),
        open_nodes(m.begin().1) == open_nodes(m) + 1,
        index < m.events.len() && m.events[index as int] is BeginNode ==> open_nodes(m.end(index, node_kind))
            == open_nodes(m) - 1,
        open_nodes(m.report_error(message)) == open_nodes(m),
        open_nodes(m.expect(kind, message)) == open_nodes(m),
        m.root is None ==> m.expect(kind, message).root is None,
        m.take_token().root == m.root,
        m.expect(kind, message).events.len() > m.events.len(),
        m.take_token().events.len() > m.events.len(),
{
    lemma_eat_trivia_open(m);
    lemma_consume_open(m, ParseEvent::Token { kind: m.current(), length: m.current_token().length });
    lemma_consume_open(m, ParseEvent::Token { kind, length: m.current_token().length });
    lemma_consume_open(m, ParseEvent::Token { kind: TokenKind::TombStone, length: m.current_token().length });
    lemma_begin_open(m);
    if index < m.events.len() && m.events[index as int] is BeginNode {
        lemma_end_open(m, index, node_kind);
    }
    lemma_report_error_open(m, message);
    lemma_report_error_open(ParserModel { panicking: true, ..m }, message);
}

proof fn lemma_finish_balanced(m: ParserModel)
    requires
        m.wf(),
        open_nodes(m) == 0,
        m.root is None,
        m.events.len() > 1,
        m.events.last() is EndNode,
    ensures
        node_balance(m.finish().events) == 0,
{
    if m.current() != TokenKind::EndOfFile {
        let cracked = ParserModel { events: m.events.drop_last(), ..m };
        assert(node_balance(cracked.events) == 1);
        let (index, opened) = cracked.begin();
        lemma_node_balance_push(cracked.events, spec_tombstone());
        let n = tokens_until_eof(m.tokens, m.consumed as int);
        let drained = ParserModel {
            consumed: opened.consumed + n,
            events: opened.events + trivia_events(m.tokens, m.consumed as int, n),
            ..opened
        };
        lemma_node_balance_append(opened.events, trivia_events(m.tokens, m.consumed as int, n));
        lemma_node_balance_trivia(m.tokens, m.consumed as int, n);
        assert(drained.events[index as int] == opened.events[index as int]);
        lemma_end_open(drained, index, SyntaxKind::Error("Unexpected text"));
        let closed = drained.end(index, SyntaxKind::Error("Unexpected text"));
        lemma_node_balance_push(closed.events, ParseEvent::EndNode);
    }
}

/// Each step of the parser records exactly one token or trivia event per token it
/// consumes: skipping trivia, consuming a token (as itself or as a tombstone), opening
/// and closing a node, reporting an error, and meeting or failing an expectation.
pub proof fn law_parser_steps_account_for_tokens(
    m: ParserModel,
    kind: TokenKind,
    message: &'static str,
    index: nat,
    node_kind: SyntaxKind,
)
    requires
        m.wf(),
        accounts_for_tokens(m),
    ensures
        accounts_for_tokens(m.eat_trivia()),
        accounts_for_tokens(m.take_token()),
        accounts_for_tokens(m.consume_token_as(kind)),
        accounts_for_tokens(m.begin().1),
        index < m.events.len() && m.events[index as int] is BeginNode ==> accounts_for_tokens(
            m.end(index, node_kind),
        ),
        accounts_for_tokens(m.report_error(message)),
        accounts_for_tokens(m.expect_failed(message)),
        accounts_for_tokens(m.expect(kind, message)),
{
    lemma_eat_trivia_accounts(m);
    lemma_consume_accounts(m, ParseEvent::Token { kind: m.current(), length: m.current_token().length });
    lemma_consume_accounts(m, ParseEvent::Token { kind, length: m.current_token().length });
    lemma_consume_accounts(
        m,
        ParseEvent::Token { kind: TokenKind::TombStone, length: m.current_token().length },
    );
    lemma_begin_accounts(m);
    if index < m.events.len() && m.events[index as int] is BeginNode {
        lemma_end_accounts(m, index, node_kind);
    }
    assert forall|msg: &'static str, p: ParserModel| p.wf() && accounts_for_tokens(p) implies accounts_for_tokens(
        #[trigger] p.report_error(msg),
    ) by {
        let (i, opened) = p.begin();
        lemma_begin_accounts(p);
        lemma_consume_accounts(
            opened,
            ParseEvent::Token { kind: opened.current(), length: opened.current_token().length },
        );
        let taken = opened.take_token();
        assert(i < taken.events.len());
        assert(taken.events[i as int] is BeginNode) by {
            assert(taken.events.subrange(0, opened.events.len() as int) == opened.events) by {
                assert(taken.events =~= opened.events.push(
                    ParseEvent::Token { kind: opened.current(), length: opened.current_token().length },
                ) + trivia_events(opened.tokens, (opened.consumed + 1) as int, trivia_run(opened.tokens, (opened.consumed + 1) as int)));
            }
        }
        lemma_end_accounts(taken, i, SyntaxKind::Error(msg));
    }
    let rec = ParserModel { panicking: true, ..m };
    assert(rec.wf() && accounts_for_tokens(rec));
    assert(accounts_for_tokens(rec.report_error(message)));
}

/// The result of a parse: the recorded events and the number of tokens consumed.
#[derive(Debug)]
pub struct CompletedParsing {
    pub events: Vec<ParseEvent>,
    pub consumed_tokens: usize,
}

/// Reads tokens and records parse events.
#[derive(Clone)]
pub struct Parser {
    source: StrTokenSource,
    consumed_tokens: usize,
    events: Vec<ParseEvent>,
    panicking: bool,
    root_marker: Option<Marker>,
}

proof fn lemma_trivia_run_bound(tokens: Seq<Token>, index: int)
    requires
        0 <= index,
    ensures
        index < tokens.len() ==> index + trivia_run(tokens, index) <= tokens.len(),
        index >= tokens.len() ==> trivia_run(tokens, index) == 0,
    decreases tokens.len() - index,
{
    if 0 <= index < tokens.len() && spec_is_trivia(tokens[index].kind) {
        lemma_trivia_run_bound(tokens, index + 1);
    }
}

proof fn lemma_tokens_until_eof_bound(tokens: Seq<Token>, index: int)
    requires
        0 <= index,
    ensures
        index < tokens.len() ==> index + tokens_until_eof(tokens, index) <= tokens.len(),
        index >= tokens.len() ==> tokens_until_eof(tokens, index) == 0,
    decreases tokens.len() - index,
{
    if 0 <= index < tokens.len() && tokens[index].kind != TokenKind::EndOfFile {
        lemma_tokens_until_eof_bound(tokens, index + 1);
    }
}

impl Parser {
    /// The abstract state of the parser.
    pub closed spec fn view(self) -> ParserModel {
        ParserModel {
            tokens: self.source.tokens(),
            consumed: self.consumed_tokens as nat,
            events: self.events@,
            panicking: self.panicking,
            root: match self.root_marker {
                Some(m) => Some(m.spec_index()),
                None => None,
            },
        }
    }

    /// A parser over `source` that has opened the implicit root node and skipped
    /// the leading trivia.
    pub fn new(source: StrTokenSource) -> (p: Parser)
        ensures
            open_nodes(p.view()) == 0,
            accounts_for_tokens(p.view()),
            p.view().wf(),
            p.view() == (ParserModel {
                tokens: source.tokens(),
                consumed: 0,
                events: seq![spec_tombstone()],
                panicking: false,
                root: Some(0),
            }).eat_trivia(),
    {
        let mut events: Vec<ParseEvent> = Vec::new();
        events.push(ParseEvent::tombstone());
        let mut p = Parser {
            source,
            consumed_tokens: 0,
            events,
            panicking: false,
            root_marker: Some(Marker::new(0)),
        };
        proof {
            lemma_token_event_count_push(Seq::empty(), spec_tombstone());
            assert(seq![spec_tombstone()] =~= Seq::<ParseEvent>::empty().push(spec_tombstone()));
            assert(recorded_lengths(p.view().events) =~= token_lengths(p.view().tokens, 0));
            lemma_eat_trivia_accounts(p.view());
            lemma_node_balance_push(Seq::empty(), spec_tombstone());
            lemma_eat_trivia_open(p.view());
        }
        p.eat_trivia();
        p
    }

    /// The kind of the current token.
    pub fn current(&self) -> (k: TokenKind)
        ensures
            k == self.view().current(),
    {
        self.source.token(self.consumed_tokens).token_kind()
    }

    /// The kinds of the current token and of the first non-trivia token after it.
    pub fn current2(&self) -> (r: Option<(TokenKind, TokenKind)>)
        requires
            self.view().consumed < usize::MAX,
        ensures
            r == Some(
                (
                    self.view().current(),
                    kind_at(
                        self.view().tokens,
                        (self.view().consumed + 1) as int + trivia_run(
                            self.view().tokens,
                            (self.view().consumed + 1) as int,
                        ),
                    ),
                ),
            ),
    {
        let ghost tokens = self.view().tokens;
        let ghost start = self.consumed_tokens + 1;
        let current0 = self.source.token(self.consumed_tokens).token_kind();
        let token_count = self.source.len();
        let mut offset: usize = 1;
        let mut current1 = self.source.token(self.consumed_tokens + offset);
        proof {
            lemma_trivia_run_bound(tokens, start as int);
        }
        while current1.token_kind().is_trivia() && current1.token_kind() != TokenKind::EndOfFile
            invariant
                token_count == tokens.len(),
                tokens == self.view().tokens,
                start == self.consumed_tokens + 1,
                self.consumed_tokens < usize::MAX,
                1 <= offset,
                self.consumed_tokens + offset <= usize::MAX,
                current1 == token_or_eof(tokens, self.consumed_tokens + offset),
                trivia_run(tokens, start as int) == (self.consumed_tokens + offset - start)
                    + trivia_run(tokens, self.consumed_tokens + offset),
            decreases tokens.len() - (self.consumed_tokens + offset),
        {
            proof {
                lemma_trivia_run_bound(tokens, self.consumed_tokens + offset);
            }
            offset = offset + 1;
            current1 = self.source.token(self.consumed_tokens + offset);
        }
        Some((current0, current1.token_kind()))
    }

    /// The kind of the token `n` places after the current one.
    pub fn nth(&self, n: usize) -> (k: TokenKind)
        requires
            self.view().consumed + n <= usize::MAX,
        ensures
            k == kind_at(self.view().tokens, self.view().consumed + n),
    {
        self.source.token(self.consumed_tokens + n).token_kind()
    }

    /// Consumes the current token, which must be of `kind`.
    pub fn token(&mut self, kind: TokenKind)
        requires
            old(self).view().wf(),
            old(self).view().current() == kind,
            old(self).view().consumed < usize::MAX,
        ensures
            open_nodes(final(self).view()) == open_nodes(old(self).view()),
            final(self).view().root == old(self).view().root,
            final(self).view().events.len() > old(self).view().events.len(),
            accounts_for_tokens(old(self).view()) ==> accounts_for_tokens(final(self).view()),
            final(self).view().wf(),
            final(self).view() == old(self).view().take_token(),
    {
        proof {
            law_parser_steps_keep_nodes_balanced(self.view(), kind, "", 0, SyntaxKind::TombStone);
        }
        proof {
            if accounts_for_tokens(self.view()) {
                law_parser_steps_account_for_tokens(self.view(), kind, "", 0, SyntaxKind::TombStone);
            }
        }
        let matched = self.token_if(kind);
    }

    /// Consumes the current token if it is of `kind`, and says whether it did.
    pub fn token_if(&mut self, kind: TokenKind) -> (b: bool)
        requires
            old(self).view().wf(),
            old(self).view().current() == kind ==> old(self).view().consumed < usize::MAX,
        ensures
            open_nodes(final(self).view()) == open_nodes(old(self).view()),
            final(self).view().root == old(self).view().root,
            final(self).view().events.len() >= old(self).view().events.len(),
            accounts_for_tokens(old(self).view()) ==> accounts_for_tokens(final(self).view()),
            final(self).view().wf(),
            b == (old(self).view().current() == kind),
            b ==> final(self).view() == old(self).view().take_token(),
            !b ==> final(self).view() == old(self).view(),
    {
        proof {
            law_parser_steps_keep_nodes_balanced(self.view(), kind, "", 0, SyntaxKind::TombStone);
        }
        proof {
            if accounts_for_tokens(self.view()) {
                law_parser_steps_account_for_tokens(self.view(), kind, "", 0, SyntaxKind::TombStone);
            }
        }
        if self.current() != kind {
            return false;
        }
        let token = self.source.token(self.consumed_tokens);
        self.consume_as(ParseEvent::Token { kind: token.token_kind(), length: token.lexeme_length() });
        true
    }

    /// Consumes a token of `kind`. Otherwise, unless already recovering from an error,
    /// wraps the current token in an error node carrying `msg` and starts recovering;
    /// while recovering, consumes the current token as a tombstone token.
    pub fn expect_token_kind(&mut self, kind: TokenKind, msg: &'static str)
        requires
            old(self).view().wf(),
            old(self).view().consumed < usize::MAX,
        ensures
            open_nodes(final(self).view()) == open_nodes(old(self).view()),
            old(self).view().root is None ==> final(self).view().root is None,
            final(self).view().events.len() > old(self).view().events.len(),
            accounts_for_tokens(old(self).view()) ==> accounts_for_tokens(final(self).view()),
            final(self).view().wf(),
            final(self).view() == old(self).view().expect(kind, msg),
    {
        proof {
            law_parser_steps_keep_nodes_balanced(self.view(), kind, msg, 0, SyntaxKind::TombStone);
        }
        proof {
            if accounts_for_tokens(self.view()) {
                law_parser_steps_account_for_tokens(self.view(), kind, msg, 0, SyntaxKind::TombStone);
            }
        }
        if self.token_if(kind) {
            self.panicking = false;
            return;
        }
        if self.panicking {
            self.remap_token(TokenKind::TombStone);
        } else {
            self.panicking = true;
            self.report_error(msg);
        }
    }

    /// Like `expect_token_kind`, accepting a token of any of `kinds`.
    pub fn expect_token_kind_in(&mut self, kinds: &[TokenKind], msg: &'static str)
        requires
            old(self).view().wf(),
            old(self).view().consumed < usize::MAX,
        ensures
            final(self).view().wf(),
            kinds@.contains(old(self).view().current()) ==> final(self).view() == (ParserModel {
                panicking: false,
                ..old(self).view().take_token()
            }),
            !kinds@.contains(old(self).view().current()) ==> final(self).view() == old(
                self,
            ).view().expect_failed(msg),
    {
        let mut i: usize = 0;
        while i < kinds.len()
            invariant
                i <= kinds@.len(),
                self.view() == old(self).view(),
                self.view().wf(),
                self.view().consumed < usize::MAX,
                forall|j: int| 0 <= j < i ==> kinds@[j] != old(self).view().current(),
            decreases kinds@.len() - i,
        {
            if self.token_if(kinds[i]) {
                self.panicking = false;
                return;
            }
            i = i + 1;
        }
        if self.panicking {
            self.remap_token(TokenKind::TombStone);
        } else {
            self.panicking = true;
            self.report_error(msg);
        }
    }

    fn report_error(&mut self, message: &'static str)
        requires
            old(self).view().wf(),
            old(self).view().consumed < usize::MAX,
        ensures
            final(self).view().wf(),
            final(self).view() == old(self).view().report_error(message),
    {
        let error = self.begin_node();
        let token = self.source.token(self.consumed_tokens);
        self.consume_as(ParseEvent::Token { kind: token.token_kind(), length: token.lexeme_length() });
        let completed = self.end_node(error, SyntaxKind::Error(message));
    }

    /// Opens a node: the first call hands out the implicit root node; later calls
    /// record a tombstone `BeginNode` event and return a marker to it.
    pub fn begin_node(&mut self) -> (m: Marker)
        requires
            old(self).view().wf(),
        ensures
            open_nodes(final(self).view()) == open_nodes(old(self).view()) + 1,
            final(self).view().root is None,
            final(self).view().events.len() >= old(self).view().events.len(),
            accounts_for_tokens(old(self).view()) ==> accounts_for_tokens(final(self).view()),
            final(self).view().wf(),
            (m.spec_index(), final(self).view()) == old(self).view().begin(),
            m.spec_index() < final(self).view().events.len(),
            final(self).view().events[m.spec_index() as int] is BeginNode,
    {
        proof {
            lemma_begin_open(self.view());
        }
        proof {
            if accounts_for_tokens(self.view()) {
                lemma_begin_accounts(self.view());
            }
        }
        match self.root_marker.take() {
            Some(marker) => marker,
            None => {
                let index = self.events.len();
                self.events.push(ParseEvent::tombstone());
                Marker::new(index)
            },
        }
    }

    /// Closes the node opened by `marker`, giving it `kind`, and records its `EndNode` event.
    pub fn end_node(&mut self, marker: Marker, kind: SyntaxKind) -> (c: CompletedMarker)
        requires
            old(self).view().wf(),
            marker.spec_index() < old(self).view().events.len(),
            old(self).view().events[marker.spec_index() as int] is BeginNode,
        ensures
            open_nodes(final(self).view()) == open_nodes(old(self).view()) - 1,
            final(self).view().root == old(self).view().root,
            final(self).view().events.len() == old(self).view().events.len() + 1,
            accounts_for_tokens(old(self).view()) ==> accounts_for_tokens(final(self).view()),
            final(self).view().wf(),
            final(self).view() == old(self).view().end(marker.spec_index(), kind),
            c.spec_start() == marker.spec_index(),
            c.spec_end() == old(self).view().events.len(),
            c.spec_kind() == kind,
    {
        proof {
            lemma_end_open(self.view(), marker.spec_index(), kind);
        }
        proof {
            if accounts_for_tokens(self.view()) {
                lemma_end_accounts(self.view(), marker.spec_index(), kind);
            }
        }
        let index = marker.index();
        let end = self.events.len();
        let event = self.events[index];
        let updated = match event {
            ParseEvent::BeginNode { kind: _, is_forward_parent, forward_parent_offset } => {
                ParseEvent::BeginNode { kind, is_forward_parent, forward_parent_offset }
            },
            other => other,
        };
        self.events.set(index, updated);
        self.events.push(ParseEvent::EndNode);
        marker.defuse(end, kind)
    }

    /// Makes the node opened by `parent` the forward parent of the completed node
    /// `child`: the child's `BeginNode` records the distance to the parent's, and the
    /// parent's becomes a forward-parent tombstone.
    pub fn precede_node(&mut self, child: &mut CompletedMarker, parent: &Marker)
        requires
            old(self).view().wf(),
            old(child).spec_start() < old(self).view().events.len(),
            old(self).view().events[old(child).spec_start() as int] is BeginNode,
            old(child).spec_start() <= parent.spec_index() < old(self).view().events.len(),
        ensures
            old(self).view().events[parent.spec_index() as int] is BeginNode ==> open_nodes(final(self).view())
                == open_nodes(old(self).view()),
            accounts_for_tokens(old(self).view()) && old(self).view().events[parent.spec_index() as int] is BeginNode
                ==> accounts_for_tokens(final(self).view()),
            final(self).view().wf(),
            *final(child) == *old(child),
            final(self).view() == (ParserModel {
                events: old(self).view().events.update(
                    old(child).spec_start() as int,
                    with_forward_parent(
                        old(self).view().events[old(child).spec_start() as int],
                        (parent.spec_index() - old(child).spec_start()) as usize,
                    ),
                ).update(
                    parent.spec_index() as int,
                    ParseEvent::BeginNode {
                        kind: SyntaxKind::TombStone,
                        is_forward_parent: true,
                        forward_parent_offset: None,
                    },
                ),
                ..old(self).view()
            }),
    {
        proof {
            let m = self.view();
            let c = child.spec_start() as int;
            let u = m.events.update(c, with_forward_parent(m.events[c], (parent.spec_index() - child.spec_start()) as usize));
            lemma_node_balance_update(m.events, c, with_forward_parent(m.events[c], (parent.spec_index() - child.spec_start()) as usize));
            if m.events[parent.spec_index() as int] is BeginNode {
                lemma_node_balance_update(u, parent.spec_index() as int, ParseEvent::BeginNode {
                    kind: SyntaxKind::TombStone,
                    is_forward_parent: true,
                    forward_parent_offset: None,
                });
            }
        }
        proof {
            let m = self.view();
            let c = child.spec_start() as int;
            let u = m.events.update(c, with_forward_parent(m.events[c], (parent.spec_index() - child.spec_start()) as usize));
            lemma_token_event_count_update(m.events, c, with_forward_parent(m.events[c], (parent.spec_index() - child.spec_start()) as usize));
            if m.events[parent.spec_index() as int] is BeginNode {
                lemma_token_event_count_update(u, parent.spec_index() as int, ParseEvent::BeginNode {
                    kind: SyntaxKind::TombStone,
                    is_forward_parent: true,
                    forward_parent_offset: None,
                });
            }
        }
        let start = child.start();
        let parent_index = parent.index();
        let event = self.events[start];
        let updated = match event {
            ParseEvent::BeginNode { kind, is_forward_parent, forward_parent_offset: _ } => {
                ParseEvent::BeginNode {
                    kind,
                    is_forward_parent,
                    forward_parent_offset: Some(parent_index - start),
                }
            },
            other => other,
        };
        self.events.set(start, updated);
        self.events.set(
            parent_index,
            ParseEvent::BeginNode {
                kind: SyntaxKind::TombStone,
                is_forward_parent: true,
                forward_parent_offset: None,
            },
        );
    }

    /// Gives the node completed as `node` the kind `kind`.
    pub fn remap_node(&mut self, node: &CompletedMarker, kind: SyntaxKind)
        requires
            old(self).view().wf(),
            node.spec_start() < old(self).view().events.len(),
        ensures
            open_nodes(final(self).view()) == open_nodes(old(self).view()),
            accounts_for_tokens(old(self).view()) ==> accounts_for_tokens(final(self).view()),
            final(self).view().wf(),
            final(self).view() == (ParserModel {
                events: old(self).view().events.update(
                    node.spec_start() as int,
                    with_kind(old(self).view().events[node.spec_start() as int], kind),
                ),
                ..old(self).view()
            }),
    {
        proof {
            let m = self.view();
            let c = node.spec_start() as int;
            lemma_node_balance_update(m.events, c, with_kind(m.events[c], kind));
        }
        proof {
            let m = self.view();
            let c = node.spec_start() as int;
            lemma_token_event_count_update(m.events, c, with_kind(m.events[c], kind));
        }
        let start = node.start();
        let event = self.events[start];
        let updated = match event {
            ParseEvent::BeginNode { kind: _, is_forward_parent, forward_parent_offset } => {
                ParseEvent::BeginNode { kind, is_forward_parent, forward_parent_offset }
            },
            other => other,
        };
        self.events.set(start, updated);
    }

    /// Finishes parsing: wraps any tokens left before the end of file in an error node
    /// and returns the events and the number of tokens consumed.
    pub fn end_parsing(self) -> (c: CompletedParsing)
        requires
            self.view().wf(),
        ensures
            open_nodes(self.view()) == 0 && self.view().root is None && self.view().events.len() > 1
                && self.view().events.last() is EndNode ==> node_balance(c.events@) == 0,
            accounts_for_tokens(self.view()) && self.view().events.len() > 0 && self.view().events.last()
                is EndNode ==> token_event_count(c.events@) == c.consumed_tokens,
            accounts_for_tokens(self.view()) && self.view().events.len() > 0 && self.view().events.last()
                is EndNode ==> recorded_lengths(c.events@) == token_lengths(
                self.view().tokens,
                c.consumed_tokens as nat,
            ),
            c.events@ == self.view().finish().events,
            c.consumed_tokens == self.view().finish().consumed,
            kind_at(self.view().tokens, c.consumed_tokens as int) == TokenKind::EndOfFile,
    {
        proof {
            lemma_until_eof_reaches_eof(self.view().tokens, self.view().consumed as int);
        }
        proof {
            if open_nodes(self.view()) == 0 && self.view().root is None && self.view().events.len() > 1
                && self.view().events.last() is EndNode {
                lemma_finish_balanced(self.view());
            }
        }
        proof {
            if accounts_for_tokens(self.view()) && self.view().events.len() > 0 && self.view().events.last() is EndNode {
                lemma_finish_accounts(self.view());
            }
        }
        let mut p = self;
        p.eat_remaining_tokens();
        CompletedParsing { events: p.events, consumed_tokens: p.consumed_tokens }
    }

    fn remap_token(&mut self, kind: TokenKind)
        requires
            old(self).view().wf(),
            old(self).view().consumed < usize::MAX,
        ensures
            final(self).view().wf(),
            final(self).view() == old(self).view().consume_token_as(kind),
    {
        let token = self.source.token(self.consumed_tokens);
        self.consume_as(ParseEvent::Token { kind, length: token.lexeme_length() });
    }

    fn consume_as(&mut self, event: ParseEvent)
        requires
            old(self).view().wf(),
            old(self).view().consumed < usize::MAX,
        ensures
            final(self).view().wf(),
            final(self).view() == old(self).view().consume_as(event),
    {
        self.consumed_tokens = self.consumed_tokens + 1;
        self.events.push(event);
        self.eat_trivia();
    }

    fn eat_trivia(&mut self)
        requires
            old(self).view().wf(),
        ensures
            final(self).view().wf(),
            final(self).view() == old(self).view().eat_trivia(),
    {
        let ghost start = self.view();
        let ghost tokens = start.tokens;
        let token_count = self.source.len();
        while self.current().is_trivia()
            invariant
                token_count == tokens.len(),
                self.view().tokens == tokens,
                self.view().panicking == start.panicking,
                self.view().root == start.root,
                self.view().wf(),
                start.consumed <= self.view().consumed,
                self.view().eat_trivia() == start.eat_trivia(),
            decreases tokens.len() - self.view().consumed,
        {
            let ghost before = self.view();
            proof {
                lemma_trivia_run_bound(tokens, before.consumed as int);
            }
            let token = self.source.token(self.consumed_tokens);
            self.events.push(ParseEvent::Trivia { kind: token.token_kind(), length: token.lexeme_length() });
            self.consumed_tokens = self.consumed_tokens + 1;
            proof {
                let n = trivia_run(tokens, before.consumed as int);
                assert(before.events + trivia_events(tokens, before.consumed as int, n) =~= self.view().events
                    + trivia_events(tokens, self.view().consumed as int, (n - 1) as nat));
                assert(self.view().eat_trivia() =~= before.eat_trivia());
            }
        }
        proof {
            assert(self.view().eat_trivia() =~= self.view());
        }
    }

    fn eat_remaining_tokens(&mut self)
        requires
            old(self).view().wf(),
        ensures
            final(self).view().wf(),
            final(self).view() == old(self).view().finish(),
    {
        let ghost start = self.view();
        let ghost tokens = start.tokens;
        if self.current() == TokenKind::EndOfFile {
            return;
        }
        if self.events.len() > 1 {
            self.events.pop();
        }
        let remaining = self.begin_node();
        let ghost opened = self.view();
        let token_count = self.source.len();
        proof {
            lemma_tokens_until_eof_bound(tokens, start.consumed as int);
        }
        while self.current() != TokenKind::EndOfFile
            invariant
                token_count == tokens.len(),
                self.view().tokens == tokens,
                self.view().panicking == opened.panicking,
                self.view().root == opened.root,
                self.view().wf(),
                opened.consumed <= self.view().consumed,
                opened.consumed == start.consumed,
                self.view().events == opened.events + trivia_events(
                    tokens,
                    start.consumed as int,
                    (self.view().consumed - start.consumed) as nat,
                ),
                tokens_until_eof(tokens, start.consumed as int) == (self.view().consumed
                    - start.consumed) + tokens_until_eof(tokens, self.view().consumed as int),
                remaining.spec_index() < opened.events.len(),
                opened.events[remaining.spec_index() as int] is BeginNode,
            decreases tokens.len() - self.view().consumed,
        {
            let ghost before = self.view();
            proof {
                lemma_tokens_until_eof_bound(tokens, before.consumed as int);
            }
            let token = self.source.token(self.consumed_tokens);
            self.events.push(ParseEvent::Trivia { kind: token.token_kind(), length: token.lexeme_length() });
            self.consumed_tokens = self.consumed_tokens + 1;
            proof {
                assert(self.view().events =~= opened.events + trivia_events(
                    tokens,
                    start.consumed as int,
                    (self.view().consumed - start.consumed) as nat,
                ));
            }
        }
        let completed = self.end_node(remaining, SyntaxKind::Error("Unexpected text"));
        self.events.push(ParseEvent::EndNode);
        proof {
            assert(self.view() =~= start.finish());
        }
    }
}

} // verus!
