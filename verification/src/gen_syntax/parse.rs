//! The parser of grammar description files: a recursive descent over non-trivia tokens
//! that builds a tree of productions, with error recovery at rule boundaries.
use vstd::prelude::*;
use crate::gen_syntax::tokens::{Token, TokenKind};

verus! {

/// What went wrong at a token.
#[derive(PartialEq, Eq, Clone, Debug)]
pub enum ParseErrorKind {
    UnexpectedToken { expected: TokenKind, actual: TokenKind },
    MissingSyntax { message: &'static str },
    DuplicateSymbol { symbol: String },
    UndefinedSymbol { symbol: String },
    AmbiguousPipe,
}

/// The abstract value of a `ParseErrorKind`: symbols as character sequences.
pub enum ErrorKindModel {
    UnexpectedToken { expected: TokenKind, actual: TokenKind },
    MissingSyntax { message: &'static str },
    DuplicateSymbol { symbol: Seq<char> },
    UndefinedSymbol { symbol: Seq<char> },
    AmbiguousPipe,
}

impl View for ParseErrorKind {
    type V = ErrorKindModel;

    open spec fn view(&self) -> ErrorKindModel {
        match self {
            ParseErrorKind::UnexpectedToken { expected, actual } => ErrorKindModel::UnexpectedToken {
                expected: *expected,
                actual: *actual,
            },
            ParseErrorKind::MissingSyntax { message } => ErrorKindModel::MissingSyntax {
                message: *message,
            },
            ParseErrorKind::DuplicateSymbol { symbol } => ErrorKindModel::DuplicateSymbol {
                symbol: symbol@,
            },
            ParseErrorKind::UndefinedSymbol { symbol } => ErrorKindModel::UndefinedSymbol {
                symbol: symbol@,
            },
            ParseErrorKind::AmbiguousPipe => ErrorKindModel::AmbiguousPipe,
        }
    }
}

/// An error and the token at which it was found.
#[derive(Clone, Debug)]
pub struct ParseError {
    pub location: Token,
    pub kind: ParseErrorKind,
}

impl View for ParseError {
    type V = (Token, ErrorKindModel);

    open spec fn view(&self) -> (Token, ErrorKindModel) {
        (self.location, self.kind@)
    }
}

impl ParseError {
    /// An error of `kind` at `location`.
    pub fn new(location: Token, kind: ParseErrorKind) -> (e: ParseError)
        ensures
            e.location == location,
            e.kind == kind,
    {
        ParseError { kind, location }
    }
}

/// A node of a parsed grammar.
#[derive(Debug)]
pub enum Production {
    Error(ParseError),
    Root(Vec<Production>),
    Rule { name: Token, production: Box<Production> },
    Plus(Box<Production>),
    Star(Box<Production>),
    Grouping(Box<Production>),
    Sequence(Vec<Production>),
    Pipe(Vec<Production>),
    Identifier { rule_name: Token, member_name: Option<Token> },
}

/// The abstract value of a `Production`.
pub enum ProductionModel {
    Error((Token, ErrorKindModel)),
    Root(Seq<ProductionModel>),
    Rule { name: Token, production: Box<ProductionModel> },
    Plus(Box<ProductionModel>),
    Star(Box<ProductionModel>),
    Grouping(Box<ProductionModel>),
    Sequence(Seq<ProductionModel>),
    Pipe(Seq<ProductionModel>),
    Identifier { rule_name: Token, member_name: Option<Token> },
}

/// Whether the production `p` has the abstract value `m`.
pub open spec fn models(p: Production, m: ProductionModel) -> bool
    decreases p,
{
    match p {
        Production::Error(e) => m == ProductionModel::Error(e@),
        Production::Root(v) => match m {
            ProductionModel::Root(s) => models_all(v, s),
            _ => false,
        },
        Production::Rule { name, production } => match m {
            ProductionModel::Rule { name: n, production: q } => n == name && models(
                *production,
                *q,
            ),
            _ => false,
        },
        Production::Plus(b) => match m {
            ProductionModel::Plus(q) => models(*b, *q),
            _ => false,
        },
        Production::Star(b) => match m {
            ProductionModel::Star(q) => models(*b, *q),
            _ => false,
        },
        Production::Grouping(b) => match m {
            ProductionModel::Grouping(q) => models(*b, *q),
            _ => false,
        },
        Production::Sequence(v) => match m {
            ProductionModel::Sequence(s) => models_all(v, s),
            _ => false,
        },
        Production::Pipe(v) => match m {
            ProductionModel::Pipe(s) => models_all(v, s),
            _ => false,
        },
        Production::Identifier { rule_name, member_name } => m == ProductionModel::Identifier {
            rule_name,
            member_name,
        },
    }
}

/// Whether the productions of `v` have, one by one, the abstract values of `s`.
pub open spec fn models_all(v: Vec<Production>, s: Seq<ProductionModel>) -> bool
    decreases v, 0int,
{
    models_seq(v@, s)
}

/// Whether the productions of `v` have, one by one, the abstract values of `s`.
pub open spec fn models_seq(v: Seq<Production>, s: Seq<ProductionModel>) -> bool
    decreases v, 1int,
{
    if v.len() == 0 {
        s.len() == 0
    } else {
        &&& s.len() == v.len()
        &&& models(v.last(), s.last())
        &&& models_seq(v.drop_last(), s.drop_last())
    }
}

/// Productions modelled one by one are modelled at each index.
pub proof fn lemma_models_seq_index(v: Seq<Production>, s: Seq<ProductionModel>, i: int)
    requires
        models_seq(v, s),
        0 <= i < v.len(),
    ensures
        s.len() == v.len(),
        models(v[i], s[i]),
    decreases v.len(),
{
    if i < v.len() - 1 {
        lemma_models_seq_index(v.drop_last(), s.drop_last(), i);
    }
}

/// Appending a modelled production keeps a sequence modelled.
pub proof fn lemma_models_seq_push(v: Seq<Production>, s: Seq<ProductionModel>, p: Production, m: ProductionModel)
    requires
        models_seq(v, s),
        models(p, m),
    ensures
        models_seq(v.push(p), s.push(m)),
{
    assert(v.push(p).drop_last() =~= v);
    assert(s.push(m).drop_last() =~= s);
}

/// The abstract value of a parse error.
pub type ErrorModel = (Token, ErrorKindModel);

/// Whether an exec parse result has the abstract value `s`.
pub open spec fn result_models(r: Result<Production, ParseError>, s: Result<ProductionModel, ErrorModel>) -> bool {
    match (r, s) {
        (Ok(p), Ok(m)) => models(p, m),
        (Err(e), Err(em)) => e@ == em,
        _ => false,
    }
}

/// The empty end-of-file token read past the last token.
pub open spec fn eof_token() -> Token {
    Token { kind: TokenKind::EndOfFile, offset: 0, length: 0 }
}

/// The token at `pos`, or the empty end-of-file token past the end.
pub open spec fn peek_at(t: Seq<Token>, pos: int) -> Token {
    if 0 <= pos < t.len() {
        t[pos]
    } else {
        eof_token()
    }
}

/// The position after consuming one token at `pos`; nothing is consumed past the end.
pub open spec fn advance(t: Seq<Token>, pos: int) -> int {
    if 0 <= pos < t.len() {
        pos + 1
    } else {
        pos
    }
}

/// Consumes the token at `pos` and checks that it has kind `k`.
pub open spec fn expect_at(t: Seq<Token>, pos: int, k: TokenKind) -> (Result<Token, ErrorModel>, int) {
    let a = peek_at(t, pos);
    (
        if a.kind == k {
            Ok(a)
        } else {
            Err((a, ErrorKindModel::UnexpectedToken { expected: k, actual: a.kind }))
        },
        advance(t, pos),
    )
}

/// `name` or `name[member]`.
pub open spec fn s_identifier(t: Seq<Token>, pos: int) -> (Result<ProductionModel, ErrorModel>, int) {
    let (a, p1) = expect_at(t, pos, TokenKind::Identifier);
    match a {
        Err(e) => (Err(e), p1),
        Ok(rule_name) => if peek_at(t, p1).kind == TokenKind::LeftBracket {
            let p2 = advance(t, p1);
            let (b, p3) = expect_at(t, p2, TokenKind::Identifier);
            match b {
                Err(e) => (Err(e), p3),
                Ok(member) => {
                    let (c, p4) = expect_at(t, p3, TokenKind::RightBracket);
                    match c {
                        Err(e) => (Err(e), p4),
                        Ok(_) => (
                            Ok(ProductionModel::Identifier { rule_name, member_name: Some(member) }),
                            p4,
                        ),
                    }
                },
            }
        } else {
            (Ok(ProductionModel::Identifier { rule_name, member_name: None }), p1)
        },
    }
}

/// A `+` or `*` applied to the production before it, which must exist.
pub open spec fn s_operator(t: Seq<Token>, pos: int, lhs: Option<ProductionModel>) -> (
    Result<ProductionModel, ErrorModel>,
    int,
) {
    match lhs {
        None => (
            Err(
                (
                    peek_at(t, pos),
                    ErrorKindModel::MissingSyntax { message: "No production sequence for operator" },
                ),
            ),
            pos,
        ),
        Some(l) => {
            let k = peek_at(t, pos).kind;
            if k == TokenKind::Plus {
                (Ok(ProductionModel::Plus(Box::new(l))), advance(t, pos))
            } else {
                (Ok(ProductionModel::Star(Box::new(l))), advance(t, pos))
            }
        },
    }
}

/// Alternatives separated by `|`; a single alternative stands for itself.
pub open spec fn s_pipe(t: Seq<Token>, pos: int) -> (Result<ProductionModel, ErrorModel>, int)
    decreases t.len() - pos, 4int,
{
    if pos < 0 || pos > t.len() {
        (Ok(ProductionModel::Sequence(Seq::empty())), pos)
    } else {
        let (a, p1) = s_sequence(t, pos);
        match a {
            Err(e) => (Err(e), p1),
            Ok(first) => if pos <= p1 <= t.len() {
                s_pipe_tail(t, p1, seq![first])
            } else {
                (Ok(first), p1)
            },
        }
    }
}

/// The alternatives after the first, collected into `chain`.
pub open spec fn s_pipe_tail(t: Seq<Token>, pos: int, chain: Seq<ProductionModel>) -> (
    Result<ProductionModel, ErrorModel>,
    int,
)
    decreases t.len() - pos, 3int,
{
    if 0 <= pos < t.len() && peek_at(t, pos).kind == TokenKind::Pipe {
        let (a, p2) = s_sequence(t, pos + 1);
        match a {
            Err(e) => (Err(e), p2),
            Ok(next) => if pos < p2 <= t.len() {
                s_pipe_tail(t, p2, chain.push(next))
            } else {
                (Ok(next), p2)
            },
        }
    } else if chain.len() != 1 {
        (Ok(ProductionModel::Pipe(chain)), pos)
    } else {
        (Ok(chain[0]), pos)
    }
}

/// A sequence of items; a single item stands for itself.
pub open spec fn s_sequence(t: Seq<Token>, pos: int) -> (Result<ProductionModel, ErrorModel>, int)
    decreases t.len() - pos, 2int,
{
    if pos < 0 || pos > t.len() {
        (Ok(ProductionModel::Sequence(Seq::empty())), pos)
    } else {
        let (a, p1) = s_items(t, pos, Seq::empty());
        match a {
            Err(e) => (Err(e), p1),
            Ok(items) => if items.len() != 1 {
                (Ok(ProductionModel::Sequence(items)), p1)
            } else {
                (Ok(items[0]), p1)
            },
        }
    }
}

/// The items of a sequence from `pos`, appended to `acc`: identifiers, operators applied
/// to the last item, and groupings; quoted terminals are skipped.
pub open spec fn s_items(t: Seq<Token>, pos: int, acc: Seq<ProductionModel>) -> (
    Result<Seq<ProductionModel>, ErrorModel>,
    int,
)
    decreases t.len() - pos, 1int,
{
    if pos < 0 || pos >= t.len() {
        (Ok(acc), pos)
    } else {
        let k = peek_at(t, pos).kind;
        if k == TokenKind::Identifier || k == TokenKind::Plus || k == TokenKind::Star || k
            == TokenKind::LeftParenthesis {
            let (a, p1, rest) = if k == TokenKind::Identifier {
                let (a, p1) = s_identifier(t, pos);
                (a, p1, acc)
            } else if k == TokenKind::LeftParenthesis {
                let (a, p1) = s_grouping(t, pos);
                (a, p1, acc)
            } else {
                let lhs = if acc.len() > 0 {
                    Some(acc.last())
                } else {
                    None
                };
                let (a, p1) = s_operator(t, pos, lhs);
                (a, p1, if acc.len() > 0 {
                    acc.drop_last()
                } else {
                    acc
                })
            };
            match a {
                Err(e) => (Err(e), p1),
                Ok(item) => if pos < p1 <= t.len() {
                    s_items(t, p1, rest.push(item))
                } else {
                    (Ok(rest.push(item)), p1)
                },
            }
        } else if k == TokenKind::Quoted {
            s_items(t, pos + 1, acc)
        } else {
            (Ok(acc), pos)
        }
    }
}

/// `( alternatives )`.
pub open spec fn s_grouping(t: Seq<Token>, pos: int) -> (Result<ProductionModel, ErrorModel>, int)
    decreases t.len() - pos, 0int,
{
    let (a, p1) = expect_at(t, pos, TokenKind::LeftParenthesis);
    match a {
        Err(e) => (Err(e), p1),
        Ok(_) => if 0 <= pos < t.len() {
            let (b, p2) = s_pipe(t, pos + 1);
            match b {
                Err(e) => (Err(e), p2),
                Ok(inner) => {
                    let (c, p3) = expect_at(t, p2, TokenKind::RightParenthesis);
                    match c {
                        Err(e) => (Err(e), p3),
                        Ok(_) => (Ok(ProductionModel::Grouping(Box::new(inner))), p3),
                    }
                },
            }
        } else {
            (Err((eof_token(), ErrorKindModel::AmbiguousPipe)), p1)
        },
    }
}


proof fn lemma_identifier_position(t: Seq<Token>, pos: int)
    requires
        0 <= pos <= t.len(),
    ensures
        pos <= s_identifier(t, pos).1 <= t.len(),
        peek_at(t, pos).kind == TokenKind::Identifier ==> pos < s_identifier(t, pos).1,
{
}

proof fn lemma_pipe_position(t: Seq<Token>, pos: int)
    requires
        0 <= pos <= t.len(),
    ensures
        pos <= s_pipe(t, pos).1 <= t.len(),
    decreases t.len() - pos, 4int,
{
    lemma_sequence_position(t, pos);
    let (a, p1) = s_sequence(t, pos);
    if let Ok(first) = a {
        lemma_pipe_tail_position(t, p1, seq![first]);
    }
}

proof fn lemma_pipe_tail_position(t: Seq<Token>, pos: int, chain: Seq<ProductionModel>)
    requires
        0 <= pos <= t.len(),
    ensures
        pos <= s_pipe_tail(t, pos, chain).1 <= t.len(),
    decreases t.len() - pos, 3int,
{
    if 0 <= pos < t.len() && peek_at(t, pos).kind == TokenKind::Pipe {
        lemma_sequence_position(t, pos + 1);
        let (a, p2) = s_sequence(t, pos + 1);
        if let Ok(next) = a {
            lemma_pipe_tail_position(t, p2, chain.push(next));
        }
    }
}

proof fn lemma_sequence_position(t: Seq<Token>, pos: int)
    requires
        0 <= pos <= t.len(),
    ensures
        pos <= s_sequence(t, pos).1 <= t.len(),
    decreases t.len() - pos, 2int,
{
    lemma_items_position(t, pos, Seq::empty());
}

proof fn lemma_items_position(t: Seq<Token>, pos: int, acc: Seq<ProductionModel>)
    requires
        0 <= pos <= t.len(),
    ensures
        pos <= s_items(t, pos, acc).1 <= t.len(),
    decreases t.len() - pos, 1int,
{
    if 0 <= pos < t.len() {
        let k = peek_at(t, pos).kind;
        if k == TokenKind::Identifier {
            lemma_identifier_position(t, pos);
            let (a, p1) = s_identifier(t, pos);
            if let Ok(item) = a {
                lemma_items_position(t, p1, acc.push(item));
            }
        } else if k == TokenKind::LeftParenthesis {
            lemma_grouping_position(t, pos);
            let (a, p1) = s_grouping(t, pos);
            if let Ok(item) = a {
                lemma_items_position(t, p1, acc.push(item));
            }
        } else if k == TokenKind::Plus || k == TokenKind::Star {
            let lhs = if acc.len() > 0 {
                Some(acc.last())
            } else {
                None
            };
            let rest = if acc.len() > 0 {
                acc.drop_last()
            } else {
                acc
            };
            let (a, p1) = s_operator(t, pos, lhs);
            if let Ok(item) = a {
                lemma_items_position(t, p1, rest.push(item));
            }
        } else if k == TokenKind::Quoted {
            lemma_items_position(t, pos + 1, acc);
        }
    }
}

proof fn lemma_grouping_position(t: Seq<Token>, pos: int)
    requires
        0 <= pos <= t.len(),
    ensures
        pos <= s_grouping(t, pos).1 <= t.len(),
        peek_at(t, pos).kind == TokenKind::LeftParenthesis ==> pos < s_grouping(t, pos).1,
    decreases t.len() - pos, 0int,
{
    if 0 <= pos < t.len() && peek_at(t, pos).kind == TokenKind::LeftParenthesis {
        lemma_pipe_position(t, pos + 1);
    }
}


/// `name => alternatives ;`.
pub open spec fn s_rule(t: Seq<Token>, pos: int) -> (Result<ProductionModel, ErrorModel>, int) {
    let (a, p1) = expect_at(t, pos, TokenKind::Identifier);
    match a {
        Err(e) => (Err(e), p1),
        Ok(name) => {
            let (b, p2) = expect_at(t, p1, TokenKind::Arrow);
            match b {
                Err(e) => (Err(e), p2),
                Ok(_) => {
                    let (c, p3) = s_pipe(t, p2);
                    match c {
                        Err(e) => (Err(e), p3),
                        Ok(production) => {
                            let (d, p4) = expect_at(t, p3, TokenKind::SemiColon);
                            match d {
                                Err(e) => (Err(e), p4),
                                Ok(_) => (
                                    Ok(ProductionModel::Rule { name, production: Box::new(production) }),
                                    p4,
                                ),
                            }
                        },
                    }
                },
            }
        },
    }
}

/// The position of the next `;` or end of file from `pos`.
pub open spec fn skip_to_semicolon(t: Seq<Token>, pos: int) -> int
    decreases t.len() - pos,
{
    if 0 <= pos < t.len() && peek_at(t, pos).kind != TokenKind::SemiColon && peek_at(t, pos).kind
        != TokenKind::EndOfFile {
        skip_to_semicolon(t, pos + 1)
    } else {
        pos
    }
}

/// After a broken rule: skips to the end of the rule, past its `;` if there is one.
pub open spec fn recover(t: Seq<Token>, pos: int) -> int {
    let p = skip_to_semicolon(t, pos);
    if peek_at(t, p).kind == TokenKind::SemiColon {
        advance(t, p)
    } else {
        p
    }
}

/// The rules from `pos` to the end of file, appended to `rules`, and the errors of the
/// rules that failed, appended to `errors`.
pub open spec fn s_root(
    t: Seq<Token>,
    pos: int,
    rules: Seq<ProductionModel>,
    errors: Seq<ErrorModel>,
) -> (Seq<ProductionModel>, Seq<ErrorModel>)
    decreases t.len() - pos,
{
    if !(0 <= pos < t.len()) || peek_at(t, pos).kind == TokenKind::EndOfFile {
        (rules, errors)
    } else {
        let (r, p1) = s_rule(t, pos);
        let (next_rules, next_errors, p2) = match r {
            Ok(x) => (rules.push(x), errors, p1),
            Err(e) => (rules, errors.push(e), recover(t, p1)),
        };
        if pos < p2 <= t.len() {
            s_root(t, p2, next_rules, next_errors)
        } else {
            (next_rules, next_errors)
        }
    }
}

/// The parse of non-trivia tokens `t`: the root of all rules, or the errors of the rules
/// that failed.
pub open spec fn spec_parse_tokens(t: Seq<Token>) -> Result<ProductionModel, Seq<ErrorModel>> {
    let (rules, errors) = s_root(t, 0, Seq::empty(), Seq::empty());
    if errors.len() == 0 {
        Ok(ProductionModel::Root(rules))
    } else {
        Err(errors)
    }
}

/// The tokens that are not trivia, in order.
pub open spec fn non_trivia(tokens: Seq<Token>) -> Seq<Token> {
    tokens.filter(|t: Token| t.kind != TokenKind::Trivia)
}

/// The parse of a token list, trivia ignored.
pub open spec fn spec_parse(tokens: Seq<Token>) -> Result<ProductionModel, Seq<ErrorModel>> {
    spec_parse_tokens(non_trivia(tokens))
}

/// Whether an exec parse outcome has the abstract value `s`.
pub open spec fn parse_result_models(
    r: Result<Production, Vec<ParseError>>,
    s: Result<ProductionModel, Seq<ErrorModel>>,
) -> bool {
    match (r, s) {
        (Ok(p), Ok(m)) => models(p, m),
        (Err(es), Err(ms)) => es@.map_values(|e: ParseError| e@) == ms,
        _ => false,
    }
}

proof fn lemma_skip_position(t: Seq<Token>, pos: int)
    requires
        0 <= pos <= t.len(),
    ensures
        pos <= skip_to_semicolon(t, pos) <= t.len(),
    decreases t.len() - pos,
{
    if 0 <= pos < t.len() && peek_at(t, pos).kind != TokenKind::SemiColon && peek_at(t, pos).kind
        != TokenKind::EndOfFile {
        lemma_skip_position(t, pos + 1);
    }
}

proof fn lemma_rule_position(t: Seq<Token>, pos: int)
    requires
        0 <= pos < t.len(),
    ensures
        pos < s_rule(t, pos).1 <= t.len(),
        pos < recover(t, s_rule(t, pos).1) <= t.len(),
{
    let p1 = pos + 1;
    if p1 <= t.len() {
        let p2 = advance(t, p1);
        lemma_pipe_position(t, p2);
    }
    let q = s_rule(t, pos).1;
    lemma_skip_position(t, q);
}

/// Reads a slice of tokens one at a time; past the end it reads an empty end-of-file token.
pub struct Tokens<'a> {
    source: &'a [Token],
    tokens_consumed: usize,
}

impl<'a> Tokens<'a> {
    /// The tokens read.
    pub closed spec fn tokens(&self) -> Seq<Token> {
        self.source@
    }

    /// The index of the next token to read.
    pub closed spec fn position(&self) -> int {
        self.tokens_consumed as int
    }

    /// The position is within the tokens.
    pub closed spec fn wf(&self) -> bool {
        self.tokens_consumed <= self.source@.len()
    }

    /// A cursor at the first of `source`.
    pub fn new(source: &'a [Token]) -> (c: Tokens<'a>)
        ensures
            c.wf(),
            c.tokens() == source@,
            c.position() == 0,
    {
        Tokens { source, tokens_consumed: 0 }
    }

    /// The next token.
    pub fn peek(&self) -> (t: Token)
        requires
            self.wf(),
        ensures
            t == peek_at(self.tokens(), self.position()),
    {
        self.peek_nth(0)
    }

    /// The token `offset` places after the next one.
    pub fn peek_nth(&self, offset: usize) -> (t: Token)
        requires
            self.wf(),
        ensures
            t == peek_at(self.tokens(), self.position() + offset),
    {
        if offset < self.source.len() - self.tokens_consumed {
            self.source[self.tokens_consumed + offset]
        } else {
            Token::new(TokenKind::EndOfFile, 0, 0)
        }
    }

    /// The number of tokens consumed.
    pub fn tokens_consumed(&self) -> (n: usize)
        ensures
            n == self.position(),
    {
        self.tokens_consumed
    }

    /// Consumes the next token, if any is left.
    pub fn consume(&mut self)
        requires
            old(self).wf(),
        ensures
            final(self).wf(),
            final(self).tokens() == old(self).tokens(),
            final(self).position() == advance(old(self).tokens(), old(self).position()),
    {
        if self.source.len() > self.tokens_consumed {
            self.tokens_consumed = self.tokens_consumed + 1;
        }
    }

    /// Consumes the next token and checks that it is of kind `expected`.
    pub fn expect(&mut self, expected: TokenKind) -> (r: Result<Token, ParseError>)
        requires
            old(self).wf(),
        ensures
            final(self).wf(),
            final(self).tokens() == old(self).tokens(),
            final(self).position() == expect_at(old(self).tokens(), old(self).position(), expected).1,
            match (r, expect_at(old(self).tokens(), old(self).position(), expected).0) {
                (Ok(a), Ok(b)) => a == b,
                (Err(a), Err(b)) => a@ == b,
                _ => false,
            },
    {
        let actual = self.peek();
        self.consume();
        if actual.kind == expected {
            Ok(actual)
        } else {
            Err(
                ParseError::new(
                    actual,
                    ParseErrorKind::UnexpectedToken { expected, actual: actual.kind },
                ),
            )
        }
    }
}

/// The cursor moved to `pos` over the same tokens.
pub open spec fn moved_to(old: Tokens, new: Tokens, pos: int) -> bool {
    &&& new.wf()
    &&& new.tokens() == old.tokens()
    &&& new.position() == pos
}


/// An optional production with its optional abstract value.
pub open spec fn option_models(p: Option<Production>, m: Option<ProductionModel>) -> bool {
    match (p, m) {
        (Some(p), Some(m)) => models(p, m),
        (None, None) => true,
        _ => false,
    }
}

/// Parses the whole token list: every rule up to the end of file. A rule that fails is
/// skipped up to and including its `;` and its error is collected.
pub fn root(cursor: &mut Tokens) -> (r: Result<Production, Vec<ParseError>>)
    requires
        old(cursor).wf(),
        old(cursor).position() == 0,
    ensures
        final(cursor).wf(),
        parse_result_models(r, spec_parse_tokens(old(cursor).tokens())),
{
    let ghost t = cursor.tokens();
    let mut rules: Vec<Production> = Vec::new();
    let mut errors: Vec<ParseError> = Vec::new();
    let ghost mut rule_models: Seq<ProductionModel> = Seq::empty();
    proof {
        assert(errors@.map_values(|e: ParseError| e@) =~= Seq::<ErrorModel>::empty());
    }
    while cursor.peek().kind != TokenKind::EndOfFile
        invariant
            cursor.wf(),
            cursor.tokens() == t,
            0 <= cursor.position() <= t.len(),
            models_all(rules, rule_models),
            s_root(t, 0, Seq::empty(), Seq::empty()) == s_root(
                t,
                cursor.position(),
                rule_models,
                errors@.map_values(|e: ParseError| e@),
            ),
        decreases t.len() - cursor.position(),
    {
        let ghost pos = cursor.position();
        let ghost error_models = errors@.map_values(|e: ParseError| e@);
        proof {
            lemma_rule_position(t, pos);
        }
        match rule(cursor) {
            Ok(p) => {
                let ghost m = s_rule(t, pos).0->Ok_0;
                let ghost before_rules = rules@;
                proof {
                    lemma_models_seq_push(before_rules, rule_models, p, m);
                }
                rules.push(p);
                proof {
                    rule_models = rule_models.push(m);
                }
            },
            Err(e) => {
                errors.push(e);
                let ghost p1 = cursor.position();
                proof {
                    lemma_skip_position(t, p1);
                }
                while cursor.peek().kind != TokenKind::SemiColon && cursor.peek().kind
                    != TokenKind::EndOfFile
                    invariant
                        cursor.wf(),
                        cursor.tokens() == t,
                        p1 <= cursor.position() <= t.len(),
                        skip_to_semicolon(t, p1) == skip_to_semicolon(t, cursor.position()),
                    decreases t.len() - cursor.position(),
                {
                    cursor.consume();
                }
                if cursor.peek().kind == TokenKind::SemiColon {
                    let semicolon = cursor.expect(TokenKind::SemiColon);
                }
                assert(cursor.position() == recover(t, p1));
                proof {
                    assert(errors@.map_values(|e: ParseError| e@) =~= error_models.push(e@));
                }
            },
        }
        proof {
            assert(pos < cursor.position());
        }
    }
    if errors.len() == 0 {
        proof {
            assert(errors@.map_values(|e: ParseError| e@) =~= Seq::<ErrorModel>::empty());
        }
        Ok(Production::Root(rules))
    } else {
        Err(errors)
    }
}

/// Parses `name => alternatives ;`.
pub fn rule(cursor: &mut Tokens) -> (r: Result<Production, ParseError>)
    requires
        old(cursor).wf(),
        0 <= old(cursor).position(),
    ensures
        moved_to(*old(cursor), *final(cursor), s_rule(old(cursor).tokens(), old(cursor).position()).1),
        result_models(r, s_rule(old(cursor).tokens(), old(cursor).position()).0),
{
    let name = match cursor.expect(TokenKind::Identifier) {
        Ok(t) => t,
        Err(e) => return Err(e),
    };
    match cursor.expect(TokenKind::Arrow) {
        Ok(_) => {},
        Err(e) => return Err(e),
    }
    let sequence = match production_pipe(cursor) {
        Ok(p) => p,
        Err(e) => return Err(e),
    };
    match cursor.expect(TokenKind::SemiColon) {
        Ok(_) => {},
        Err(e) => return Err(e),
    }
    Ok(Production::Rule { name, production: Box::new(sequence) })
}

fn production_sequence(cursor: &mut Tokens) -> (r: Result<Production, ParseError>)
    requires
        old(cursor).wf(),
        0 <= old(cursor).position(),
    ensures
        moved_to(
            *old(cursor),
            *final(cursor),
            s_sequence(old(cursor).tokens(), old(cursor).position()).1,
        ),
        result_models(r, s_sequence(old(cursor).tokens(), old(cursor).position()).0),
    decreases old(cursor).tokens().len() - old(cursor).position(), 2int,
{
    let ghost t = cursor.tokens();
    let ghost start = cursor.position();
    let mut sequence: Vec<Production> = Vec::new();
    let ghost mut acc: Seq<ProductionModel> = Seq::empty();
    loop
        invariant
            cursor.wf(),
            cursor.tokens() == t,
            0 <= start <= cursor.position() <= t.len(),
            start == old(cursor).position(),
            t == old(cursor).tokens(),
            models_all(sequence, acc),
            s_items(t, start, Seq::empty()) == s_items(t, cursor.position(), acc),
        ensures
            cursor.wf(),
            cursor.tokens() == t,
            models_all(sequence, acc),
            s_items(t, start, Seq::empty()) == (
                Ok::<Seq<ProductionModel>, ErrorModel>(acc),
                cursor.position(),
            ),
        decreases t.len() - cursor.position(),
    {
        let ghost pos = cursor.position();
        let token = cursor.peek();
        if token.kind == TokenKind::Quoted {
            cursor.consume();
            continue;
        }
        if !(token.kind == TokenKind::Identifier || token.kind == TokenKind::Plus || token.kind
            == TokenKind::Star || token.kind == TokenKind::LeftParenthesis) {
            break;
        }
        let ghost rest = if token.kind == TokenKind::Plus || token.kind == TokenKind::Star {
            if acc.len() > 0 {
                acc.drop_last()
            } else {
                acc
            }
        } else {
            acc
        };
        let ghost p1;
        let ghost item_model: ProductionModel;
        let next = if token.kind == TokenKind::Identifier {
            proof {
                lemma_identifier_position(t, pos);
                p1 = s_identifier(t, pos).1;
                item_model = s_identifier(t, pos).0->Ok_0;
            }
            match production_identifier(cursor) {
                Ok(p) => p,
                Err(e) => return Err(e),
            }
        } else if token.kind == TokenKind::LeftParenthesis {
            proof {
                lemma_grouping_position(t, pos);
                p1 = s_grouping(t, pos).1;
                item_model = s_grouping(t, pos).0->Ok_0;
            }
            match production_grouping(cursor) {
                Ok(p) => p,
                Err(e) => return Err(e),
            }
        } else {
            let ghost lhs_model = if acc.len() > 0 {
                Some(acc.last())
            } else {
                None
            };
            let ghost before = sequence@;
            let lhs = sequence.pop();
            proof {
                p1 = s_operator(t, pos, lhs_model).1;
                item_model = s_operator(t, pos, lhs_model).0->Ok_0;
                if acc.len() > 0 {
                    assert(models_seq(before, acc));
                    assert(sequence@ =~= before.drop_last());
                }
            }
            match production_operator(cursor, lhs, Ghost(lhs_model)) {
                Ok(p) => p,
                Err(e) => return Err(e),
            }
        };
        let ghost before = sequence@;
        proof {
            lemma_models_seq_push(before, rest, next, item_model);
        }
        sequence.push(next);
        proof {
            acc = rest.push(item_model);
        }
    }
    if sequence.len() != 1 {
        Ok(Production::Sequence(sequence))
    } else {
        let ghost before = sequence@;
        let item = sequence.pop().unwrap();
        proof {
            lemma_models_seq_index(before, acc, 0);
        }
        Ok(item)
    }
}

fn production_identifier(cursor: &mut Tokens) -> (r: Result<Production, ParseError>)
    requires
        old(cursor).wf(),
    ensures
        moved_to(
            *old(cursor),
            *final(cursor),
            s_identifier(old(cursor).tokens(), old(cursor).position()).1,
        ),
        result_models(r, s_identifier(old(cursor).tokens(), old(cursor).position()).0),
{
    let rule_name = match cursor.expect(TokenKind::Identifier) {
        Ok(t) => t,
        Err(e) => return Err(e),
    };
    let member_name = if cursor.peek().kind == TokenKind::LeftBracket {
        match cursor.expect(TokenKind::LeftBracket) {
            Ok(_) => {},
            Err(e) => return Err(e),
        }
        let name = match cursor.expect(TokenKind::Identifier) {
            Ok(t) => t,
            Err(e) => return Err(e),
        };
        match cursor.expect(TokenKind::RightBracket) {
            Ok(_) => {},
            Err(e) => return Err(e),
        }
        Some(name)
    } else {
        None
    };
    Ok(Production::Identifier { rule_name, member_name })
}

fn production_operator(
    cursor: &mut Tokens,
    lhs: Option<Production>,
    Ghost(lhs_model): Ghost<Option<ProductionModel>>,
) -> (r: Result<Production, ParseError>)
    requires
        old(cursor).wf(),
        option_models(lhs, lhs_model),
        lhs is Some ==> (peek_at(old(cursor).tokens(), old(cursor).position()).kind
            == TokenKind::Plus || peek_at(old(cursor).tokens(), old(cursor).position()).kind
            == TokenKind::Star),
    ensures
        moved_to(
            *old(cursor),
            *final(cursor),
            s_operator(old(cursor).tokens(), old(cursor).position(), lhs_model).1,
        ),
        result_models(r, s_operator(old(cursor).tokens(), old(cursor).position(), lhs_model).0),
{
    let lhs = match lhs {
        Some(l) => l,
        None => {
            return Err(
                ParseError::new(
                    cursor.peek(),
                    ParseErrorKind::MissingSyntax { message: "No production sequence for operator" },
                ),
            )
        },
    };
    let lhs = Box::new(lhs);
    let token = cursor.peek().kind;
    cursor.consume();
    match token {
        TokenKind::Plus => Ok(Production::Plus(lhs)),
        _ => Ok(Production::Star(lhs)),
    }
}

fn production_grouping(cursor: &mut Tokens) -> (r: Result<Production, ParseError>)
    requires
        old(cursor).wf(),
        0 <= old(cursor).position(),
    ensures
        moved_to(
            *old(cursor),
            *final(cursor),
            s_grouping(old(cursor).tokens(), old(cursor).position()).1,
        ),
        result_models(r, s_grouping(old(cursor).tokens(), old(cursor).position()).0),
    decreases old(cursor).tokens().len() - old(cursor).position(), 0int,
{
    match cursor.expect(TokenKind::LeftParenthesis) {
        Ok(_) => {},
        Err(e) => return Err(e),
    }
    let sequence = match production_pipe(cursor) {
        Ok(p) => p,
        Err(e) => return Err(e),
    };
    match cursor.expect(TokenKind::RightParenthesis) {
        Ok(_) => {},
        Err(e) => return Err(e),
    }
    Ok(Production::Grouping(Box::new(sequence)))
}

fn production_pipe(cursor: &mut Tokens) -> (r: Result<Production, ParseError>)
    requires
        old(cursor).wf(),
        0 <= old(cursor).position(),
    ensures
        moved_to(*old(cursor), *final(cursor), s_pipe(old(cursor).tokens(), old(cursor).position()).1),
        result_models(r, s_pipe(old(cursor).tokens(), old(cursor).position()).0),
    decreases old(cursor).tokens().len() - old(cursor).position(), 4int,
{
    let ghost t = cursor.tokens();
    let ghost start = cursor.position();
    proof {
        lemma_sequence_position(t, start);
    }
    let lhs = match production_sequence(cursor) {
        Ok(p) => p,
        Err(e) => return Err(e),
    };
    let ghost first = s_sequence(t, start).0->Ok_0;
    let mut chain: Vec<Production> = Vec::new();
    chain.push(lhs);
    let ghost mut chain_models: Seq<ProductionModel> = seq![first];
    proof {
        lemma_models_seq_push(Seq::empty(), Seq::empty(), chain@[0], first);
        assert(chain@ =~= Seq::<Production>::empty().push(chain@[0]));
    }
    while cursor.peek().kind == TokenKind::Pipe
        invariant
            cursor.wf(),
            cursor.tokens() == t,
            0 <= start <= cursor.position() <= t.len(),
            start == old(cursor).position(),
            t == old(cursor).tokens(),
            models_all(chain, chain_models),
            s_pipe(t, start) == s_pipe_tail(t, cursor.position(), chain_models),
        decreases t.len() - cursor.position(),
    {
        let ghost pos = cursor.position();
        cursor.consume();
        proof {
            lemma_sequence_position(t, pos + 1);
        }
        let next = match production_sequence(cursor) {
            Ok(p) => p,
            Err(e) => return Err(e),
        };
        let ghost m = s_sequence(t, pos + 1).0->Ok_0;
        let ghost before = chain@;
        proof {
            lemma_models_seq_push(before, chain_models, next, m);
        }
        chain.push(next);
        proof {
            chain_models = chain_models.push(m);
        }
    }
    if chain.len() != 1 {
        Ok(Production::Pipe(chain))
    } else {
        let ghost before = chain@;
        let item = chain.pop().unwrap();
        proof {
            lemma_models_seq_index(before, chain_models, 0);
        }
        Ok(item)
    }
}


/// Parses a token list, trivia ignored: the root of all rules, or the errors of every
/// rule that failed.
pub fn parse(tokens: Vec<Token>) -> (r: Result<Production, Vec<ParseError>>)
    ensures
        parse_result_models(r, spec_parse(tokens@)),
{
    let mut kept: Vec<Token> = Vec::new();
    let mut i: usize = 0;
    while i < tokens.len()
        invariant
            i <= tokens@.len(),
            kept@ == non_trivia(tokens@.take(i as int)),
        decreases tokens@.len() - i,
    {
        let token = tokens[i];
        proof {
            reveal_with_fuel(Seq::<Token>::filter, 1);
            assert(tokens@.take(i + 1).drop_last() =~= tokens@.take(i as int));
        }
        if !token.is_trivia() {
            kept.push(token);
        }
        i = i + 1;
    }
    proof {
        assert(tokens@.take(tokens@.len() as int) =~= tokens@);
    }
    let mut cursor = Tokens::new(kept.as_slice());
    root(&mut cursor)
}


/// The productions of the tree rooted at `p`, in pre-order: each node before its
/// children, children from first to last.
pub open spec fn preorder(p: Production) -> Seq<Production>
    decreases p, 0int,
{
    match p {
        Production::Root(v) => seq![p] + preorder_seq(v@),
        Production::Sequence(v) => seq![p] + preorder_seq(v@),
        Production::Pipe(v) => seq![p] + preorder_seq(v@),
        Production::Rule { name: _, production } => seq![p] + preorder(*production),
        Production::Plus(b) => seq![p] + preorder(*b),
        Production::Star(b) => seq![p] + preorder(*b),
        Production::Grouping(b) => seq![p] + preorder(*b),
        Production::Error(_) => seq![p],
        Production::Identifier { .. } => seq![p],
    }
}

/// The pre-orders of the trees in `v`, one after the other.
pub open spec fn preorder_seq(v: Seq<Production>) -> Seq<Production>
    decreases v, 1int,
{
    if v.len() == 0 {
        Seq::empty()
    } else {
        preorder(v[0]) + preorder_seq(v.drop_first())
    }
}

/// The direct children of `p`, first to last.
pub open spec fn children(p: Production) -> Seq<Production> {
    match p {
        Production::Root(v) => v@,
        Production::Sequence(v) => v@,
        Production::Pipe(v) => v@,
        Production::Rule { name: _, production } => seq![*production],
        Production::Plus(b) => seq![*b],
        Production::Star(b) => seq![*b],
        Production::Grouping(b) => seq![*b],
        Production::Error(_) => Seq::empty(),
        Production::Identifier { .. } => Seq::empty(),
    }
}

/// `s` in reverse order.
pub open spec fn reversed<A>(s: Seq<A>) -> Seq<A>
    decreases s.len(),
{
    if s.len() == 0 {
        Seq::empty()
    } else {
        reversed(s.drop_first()).push(s[0])
    }
}

/// What a stack of pending subtrees yields, top (last) first.
pub open spec fn pending<'a>(f: Seq<&'a Production>) -> Seq<Production>
    decreases f.len(),
{
    if f.len() == 0 {
        Seq::empty()
    } else {
        preorder(*f.last()) + pending(f.drop_last())
    }
}

proof fn lemma_preorder_seq_single(x: Production)
    ensures
        preorder_seq(seq![x]) == preorder(x),
{
    let s = seq![x];
    assert(s[0] == x);
    assert(s.drop_first() =~= Seq::<Production>::empty());
    assert(preorder_seq(Seq::<Production>::empty()) == Seq::<Production>::empty());
    assert(preorder(x) + Seq::<Production>::empty() =~= preorder(x));
}

proof fn lemma_reversed_single<A>(x: A)
    ensures
        reversed(seq![x]) == seq![x],
{
    let s = seq![x];
    assert(s.drop_first() =~= Seq::<A>::empty());
    assert(reversed(Seq::<A>::empty()) == Seq::<A>::empty());
    assert(Seq::<A>::empty().push(x) =~= seq![x]);
}

proof fn lemma_preorder_children(p: Production)
    ensures
        preorder(p) == seq![p] + preorder_seq(children(p)),
{
    match p {
        Production::Rule { name: _, production } => {
            lemma_preorder_seq_single(*production);
        },
        Production::Plus(b) => {
            lemma_preorder_seq_single(*b);
        },
        Production::Star(b) => {
            lemma_preorder_seq_single(*b);
        },
        Production::Grouping(b) => {
            lemma_preorder_seq_single(*b);
        },
        Production::Error(_) => {
            assert(seq![p] + preorder_seq(Seq::empty()) =~= seq![p]);
        },
        Production::Identifier { .. } => {
            assert(seq![p] + preorder_seq(Seq::empty()) =~= seq![p]);
        },
        _ => {},
    }
}

proof fn lemma_pending_push_reversed<'a>(base: Seq<&'a Production>, c: Seq<&'a Production>)
    ensures
        pending(base + reversed(c)) == preorder_seq(c.map_values(|r: &'a Production| *r))
            + pending(base),
    decreases c.len(),
{
    let cv = c.map_values(|r: &'a Production| *r);
    if c.len() == 0 {
        assert(base + reversed(c) =~= base);
        assert(preorder_seq(cv) =~= Seq::<Production>::empty());
        assert(Seq::<Production>::empty() + pending(base) =~= pending(base));
    } else {
        let rest = c.drop_first();
        lemma_pending_push_reversed(base, rest);
        let x = base + reversed(rest);
        assert(base + reversed(c) =~= x.push(c[0]));
        assert(x.push(c[0]).drop_last() =~= x);
        assert(cv.drop_first() =~= rest.map_values(|r: &'a Production| *r));
        assert(pending(x.push(c[0])) == preorder(*c[0]) + pending(x));
        assert(preorder_seq(cv) == preorder(cv[0]) + preorder_seq(cv.drop_first()));
        assert(preorder(*c[0]) + (preorder_seq(rest.map_values(|r: &'a Production| *r)) + pending(base))
            =~= (preorder(cv[0]) + preorder_seq(cv.drop_first())) + pending(base));
    }
}

/// Walks a production tree in pre-order.
pub struct ProductionIterator<'a> {
    frontier: Vec<&'a Production>,
}

impl<'a> ProductionIterator<'a> {
    /// The productions that are still to be produced, in order.
    pub closed spec fn remaining(&self) -> Seq<Production> {
        pending(self.frontier@)
    }

    /// An iterator over the tree rooted at `root`.
    pub fn new(root: &'a Production) -> (it: ProductionIterator<'a>)
        ensures
            it.remaining() == preorder(*root),
    {
        let mut frontier: Vec<&'a Production> = Vec::new();
        frontier.push(root);
        proof {
            let f = frontier@;
            assert(f.drop_last() =~= Seq::<&'a Production>::empty());
            assert(f.last() == root);
            assert(pending(Seq::<&'a Production>::empty()) == Seq::<Production>::empty());
            assert(pending(f) == preorder(*root) + pending(f.drop_last()));
            assert(preorder(*root) + Seq::<Production>::empty() =~= preorder(*root));
        }
        ProductionIterator { frontier }
    }

    /// Produces the next production in pre-order, or `None` when the walk is over.
    pub fn next(&mut self) -> (r: Option<&'a Production>)
        ensures
            old(self).remaining().len() == 0 ==> r is None && final(self).remaining() == old(
                self,
            ).remaining(),
            old(self).remaining().len() > 0 ==> r is Some && *r->0 == old(self).remaining()[0]
                && final(self).remaining() == old(self).remaining().drop_first(),
    {
        let ghost f = self.frontier@;
        let next = match self.frontier.pop() {
            Some(p) => p,
            None => {
                proof {
                    assert(f.len() == 0);
                }
                return None;
            },
        };
        let ghost base = self.frontier@;
        proof {
            lemma_preorder_children(*next);
        }
        let ghost kids: Seq<&'a Production>;
        match next {
            Production::Pipe(chain) => {
                proof {
                    kids = Seq::new(chain@.len(), |j: int| &chain@[j]);
                }
                self.push_children_reversed(chain, Ghost(kids));
            },
            Production::Sequence(sequence) => {
                proof {
                    kids = Seq::new(sequence@.len(), |j: int| &sequence@[j]);
                }
                self.push_children_reversed(sequence, Ghost(kids));
            },
            Production::Root(items) => {
                proof {
                    kids = Seq::new(items@.len(), |j: int| &items@[j]);
                }
                self.push_children_reversed(items, Ghost(kids));
            },
            Production::Grouping(child) | Production::Plus(child) | Production::Star(child) => {
                let c: &'a Production = &**child;
                self.frontier.push(c);
                proof {
                    kids = seq![c];
                    lemma_reversed_single(c);
                }
            },
            Production::Rule { name: _, production } => {
                let c: &'a Production = &**production;
                self.frontier.push(c);
                proof {
                    kids = seq![c];
                    lemma_reversed_single(c);
                }
            },
            Production::Error(_) => {
                proof {
                    kids = Seq::empty();
                }
            },
            Production::Identifier { .. } => {
                proof {
                    kids = Seq::empty();
                }
            },
        };
        proof {
            assert(kids.map_values(|r: &'a Production| *r) =~= children(*next));
            assert(self.frontier@ =~= base + reversed(kids));
            lemma_pending_push_reversed(base, kids);
            assert(f.drop_last() =~= base);
            assert(pending(f) == preorder(*next) + pending(base));
            assert(pending(f).drop_first() =~= preorder_seq(children(*next)) + pending(base));
        }
        Some(next)
    }

    fn push_children_reversed(&mut self, items: &'a Vec<Production>, Ghost(kids): Ghost<
        Seq<&'a Production>,
    >)
        requires
            kids == Seq::new(items@.len(), |j: int| &items@[j]),
        ensures
            final(self).frontier@ == old(self).frontier@ + reversed(kids),
    {
        let mut j = items.len();
        while j > 0
            invariant
                j <= items@.len(),
                kids == Seq::new(items@.len(), |k: int| &items@[k]),
                self.frontier@ == old(self).frontier@ + reversed(kids.subrange(j as int, kids.len() as int)),
            decreases j,
        {
            proof {
                let tail = kids.subrange(j - 1, kids.len() as int);
                assert(tail.drop_first() =~= kids.subrange(j as int, kids.len() as int));
                assert(tail[0] == kids[j - 1]);
            }
            j = j - 1;
            self.frontier.push(&items[j]);
            proof {
                assert(self.frontier@ =~= old(self).frontier@ + reversed(kids.subrange(j as int, kids.len() as int)));
            }
        }
        proof {
            assert(kids.subrange(0, kids.len() as int) =~= kids);
        }
    }
}

impl Production {
    /// An iterator over this tree in pre-order.
    pub fn iter(&self) -> (it: ProductionIterator<'_>)
        ensures
            it.remaining() == preorder(*self),
    {
        ProductionIterator::new(self)
    }
}

} // verus!
