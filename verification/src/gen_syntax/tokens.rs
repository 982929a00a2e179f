//! The lexer of grammar description files. It reads ASCII text.
use vstd::prelude::*;
use crate::text::chars_of;

verus! {

/// The kinds of grammar tokens.
#[derive(PartialEq, Eq, Structural, Copy, Clone, Debug)]
pub enum TokenKind {
    Error,
    EndOfFile,
    Trivia,
    SemiColon,
    Identifier,
    Arrow,
    LeftParenthesis,
    RightParenthesis,
    LeftBracket,
    RightBracket,
    Quoted,
    Pipe,
    Star,
    Plus,
}

/// A token: its kind and the span of characters it covers.
#[derive(PartialEq, Eq, Structural, Copy, Clone, Debug)]
pub struct Token {
    pub kind: TokenKind,
    pub offset: usize,
    pub length: usize,
}

impl Token {
    /// A token of `kind` covering `length` characters from `offset`.
    pub fn new(kind: TokenKind, offset: usize, length: usize) -> (t: Token)
        ensures
            t == (Token { kind, offset, length }),
    {
        Token { kind, offset, length }
    }

    /// Whether the token is white space.
    pub fn is_trivia(&self) -> (b: bool)
        ensures
            b == (self.kind == TokenKind::Trivia),
    {
        self.kind == TokenKind::Trivia
    }

    /// Whether the token is a lexical error.
    pub fn is_error(&self) -> (b: bool)
        ensures
            b == (self.kind == TokenKind::Error),
    {
        self.kind == TokenKind::Error
    }

    /// Whether the token is an identifier.
    pub fn is_identifier(&self) -> (b: bool)
        ensures
            b == (self.kind == TokenKind::Identifier),
    {
        self.kind == TokenKind::Identifier
    }

    /// Whether the token is a quoted terminal.
    pub fn is_quoted(&self) -> (b: bool)
        ensures
            b == (self.kind == TokenKind::Quoted),
    {
        self.kind == TokenKind::Quoted
    }
}

/// An ASCII letter: the ASCII characters that are alphabetic.
pub open spec fn is_letter(c: char) -> bool {
    ('a' <= c <= 'z') || ('A' <= c <= 'Z')
}

/// ASCII white space: tab, line feed, vertical tab, form feed, carriage return, space.
pub open spec fn is_space(c: char) -> bool {
    ('\u{9}' <= c <= '\u{d}') || c == ' '
}

/// An ASCII character.
pub open spec fn is_ascii_char(c: char) -> bool {
    (c as u32) < 128
}

/// Walks the characters of a source, counting those consumed.
pub struct Characters<'a> {
    source: &'a str,
    chars: Vec<char>,
    chars_consumed: usize,
}

impl<'a> Characters<'a> {
    /// All the characters of the source.
    pub closed spec fn text(&self) -> Seq<char> {
        self.source@
    }

    /// The number of characters consumed.
    pub closed spec fn consumed(&self) -> nat {
        self.chars_consumed as nat
    }

    /// The internal representation agrees with the source and the count is in range.
    pub closed spec fn wf(&self) -> bool {
        &&& self.chars@ == self.source@
        &&& self.chars_consumed <= self.chars@.len()
    }

    /// The characters not consumed yet.
    pub open spec fn rest(&self) -> Seq<char> {
        self.text().subrange(self.consumed() as int, self.text().len() as int)
    }

    /// A cursor at the start of `source`.
    pub fn new(source: &'a str) -> (c: Characters<'a>)
        ensures
            c.wf(),
            c.text() == source@,
            c.consumed() == 0,
    {
        let chars = chars_of(source);
        Characters { source, chars, chars_consumed: 0 }
    }

    /// The first character not consumed yet, if any.
    pub fn peek(&self) -> (r: Option<char>)
        requires
            self.wf(),
        ensures
            r == (if self.rest().len() > 0 {
                Some(self.rest()[0])
            } else {
                None
            }),
    {
        self.peek_nth(0)
    }

    /// The character `offset` places after the first unconsumed one, if any.
    pub fn peek_nth(&self, offset: usize) -> (r: Option<char>)
        requires
            self.wf(),
        ensures
            r == (if offset < self.rest().len() {
                Some(self.rest()[offset as int])
            } else {
                None
            }),
    {
        if offset < self.chars.len() - self.chars_consumed {
            Some(self.chars[self.chars_consumed + offset])
        } else {
            None
        }
    }

    /// The number of characters consumed.
    pub fn chars_consumed(&self) -> (n: usize)
        ensures
            n == self.consumed(),
    {
        self.chars_consumed
    }

    /// Consumes one character, if any is left. The character must be ASCII.
    pub fn consume(&mut self)
        requires
            old(self).wf(),
            old(self).rest().len() > 0 ==> is_ascii_char(old(self).rest()[0]),
        ensures
            final(self).wf(),
            final(self).text() == old(self).text(),
            old(self).rest().len() > 0 ==> final(self).consumed() == old(self).consumed() + 1,
            old(self).rest().len() == 0 ==> final(self).consumed() == old(self).consumed(),
    {
        if self.chars_consumed < self.chars.len() {
            self.chars_consumed = self.chars_consumed + 1;
        }
    }
}

/// The number of consecutive characters from `pos` that satisfy `letters` (letters)
/// or, when `letters` is false, white space.
pub open spec fn run_length(s: Seq<char>, pos: int, letters: bool) -> nat
    decreases s.len() - pos,
{
    if pos < 0 || pos >= s.len() {
        0
    } else if (letters && is_letter(s[pos])) || (!letters && is_space(s[pos])) {
        1 + run_length(s, pos + 1, letters)
    } else {
        0
    }
}

/// The number of characters from `pos` before the first `'`, or to the end.
pub open spec fn until_quote(s: Seq<char>, pos: int) -> nat
    decreases s.len() - pos,
{
    if pos < 0 || pos >= s.len() || s[pos] == '\'' {
        0
    } else {
        1 + until_quote(s, pos + 1)
    }
}

/// The kind and length of the token that starts at `pos`.
pub open spec fn token_at(s: Seq<char>, pos: int) -> (TokenKind, nat) {
    let c = s[pos];
    if c == '=' {
        if pos + 1 < s.len() && s[pos + 1] == '>' {
            (TokenKind::Arrow, 2)
        } else {
            (TokenKind::Error, 1)
        }
    } else if c == '(' {
        (TokenKind::LeftParenthesis, 1)
    } else if c == ')' {
        (TokenKind::RightParenthesis, 1)
    } else if c == '[' {
        (TokenKind::LeftBracket, 1)
    } else if c == ']' {
        (TokenKind::RightBracket, 1)
    } else if c == '|' {
        (TokenKind::Pipe, 1)
    } else if c == '*' {
        (TokenKind::Star, 1)
    } else if c == '+' {
        (TokenKind::Plus, 1)
    } else if c == ';' {
        (TokenKind::SemiColon, 1)
    } else if c == '\'' {
        let k = until_quote(s, pos + 1);
        if pos + 1 + k < s.len() {
            (TokenKind::Quoted, k + 2)
        } else {
            (TokenKind::Error, k + 1)
        }
    } else if is_letter(c) {
        (TokenKind::Identifier, 1 + run_length(s, pos + 1, true))
    } else if is_space(c) {
        (TokenKind::Trivia, 1 + run_length(s, pos + 1, false))
    } else {
        (TokenKind::Error, 1)
    }
}

proof fn lemma_run_length_bound(s: Seq<char>, pos: int, letters: bool)
    requires
        0 <= pos <= s.len(),
    ensures
        pos + run_length(s, pos, letters) <= s.len(),
    decreases s.len() - pos,
{
    if pos < s.len() && ((letters && is_letter(s[pos])) || (!letters && is_space(s[pos]))) {
        lemma_run_length_bound(s, pos + 1, letters);
    }
}

proof fn lemma_until_quote_bound(s: Seq<char>, pos: int)
    requires
        0 <= pos <= s.len(),
    ensures
        pos + until_quote(s, pos) <= s.len(),
        pos + until_quote(s, pos) < s.len() ==> s[pos + until_quote(s, pos)] == '\'',
    decreases s.len() - pos,
{
    if pos < s.len() && s[pos] != '\'' {
        lemma_until_quote_bound(s, pos + 1);
    }
}

/// Every token is at least one character long and ends within the text.
pub proof fn lemma_token_at_bounds(s: Seq<char>, pos: int)
    requires
        0 <= pos < s.len(),
    ensures
        1 <= token_at(s, pos).1,
        pos + token_at(s, pos).1 <= s.len(),
{
    lemma_run_length_bound(s, pos + 1, true);
    lemma_run_length_bound(s, pos + 1, false);
    lemma_until_quote_bound(s, pos + 1);
}

/// The tokens of `s` from `pos` to its end.
pub open spec fn tokens_from(s: Seq<char>, pos: int) -> Seq<Token>
    decreases s.len() - pos,
{
    if pos < 0 || pos >= s.len() {
        Seq::empty()
    } else {
        let (kind, length) = token_at(s, pos);
        proof {
            lemma_token_at_bounds(s, pos);
        }
        seq![Token { kind, offset: pos as usize, length: length as usize }] + tokens_from(
            s,
            pos + length,
        )
    }
}

/// The tokens of a whole text, followed by an empty end-of-file token at its end.
pub open spec fn spec_tokenize(s: Seq<char>) -> Seq<Token> {
    tokens_from(s, 0).push(Token { kind: TokenKind::EndOfFile, offset: s.len() as usize, length: 0 })
}

/// The tokens `toks` lie one after another from `start` to `end`, none of them empty
/// and none of them an end of file.
pub open spec fn tokens_cover(toks: Seq<Token>, start: nat, end: nat) -> bool {
    &&& forall|i: int| 0 <= i < toks.len() ==> #[trigger] toks[i].length >= 1
    &&& forall|i: int| 0 <= i < toks.len() ==> #[trigger] toks[i].kind != TokenKind::EndOfFile
    &&& toks.len() == 0 ==> start == end
    &&& toks.len() > 0 ==> toks[0].offset == start
    &&& toks.len() > 0 ==> toks.last().offset + toks.last().length == end
    &&& forall|i: int| 0 <= i < toks.len() - 1 ==> #[trigger] toks[i + 1].offset == toks[i].offset
        + toks[i].length
}

proof fn lemma_tokens_from_cover(s: Seq<char>, pos: int)
    requires
        0 <= pos <= s.len(),
        s.len() <= usize::MAX,
    ensures
        tokens_cover(tokens_from(s, pos), pos as nat, s.len()),
    decreases s.len() - pos,
{
    if pos < s.len() {
        let (kind, length) = token_at(s, pos);
        lemma_token_at_bounds(s, pos);
        lemma_tokens_from_cover(s, pos + length);
        let rest = tokens_from(s, pos + length);
        let all = tokens_from(s, pos);
        let first = Token { kind, offset: pos as usize, length: length as usize };
        assert(all == seq![first] + rest);
        assert forall|i: int| 0 <= i < all.len() - 1 implies #[trigger] all[i + 1].offset
            == all[i].offset + all[i].length by {
            assert(all[i + 1] == rest[i]);
            if i > 0 {
                assert(all[i] == rest[i - 1]);
                assert(rest[(i - 1) + 1].offset == rest[i - 1].offset + rest[i - 1].length);
            }
        }
        assert forall|i: int| 0 <= i < all.len() implies #[trigger] all[i].length >= 1 && all[i].kind
            != TokenKind::EndOfFile by {
            if i > 0 {
                assert(all[i] == rest[i - 1]);
            }
        }
    }
}

/// The tokens of a text cover it exactly, one after another and none empty, and are
/// followed by one empty end-of-file token at the end of the text.
pub proof fn law_tokens_cover_text(s: Seq<char>)
    requires
        s.len() <= usize::MAX,
    ensures
        tokens_cover(spec_tokenize(s).drop_last(), 0, s.len()),
        spec_tokenize(s).last() == (Token { kind: TokenKind::EndOfFile, offset: s.len() as usize, length: 0 }),
{
    lemma_tokens_from_cover(s, 0);
    assert(spec_tokenize(s).drop_last() =~= tokens_from(s, 0));
}

/// The characters a run of `letters` (letters, or white space when false) is made of.
pub open spec fn run_char(c: char, letters: bool) -> bool {
    (letters && is_letter(c)) || (!letters && is_space(c))
}

/// The token `t` is a run of `letters` characters that cannot be made longer: each of
/// its characters is one, and the character after it, if any, is not.
pub open spec fn maximal_run(s: Seq<char>, t: Token, letters: bool) -> bool {
    &&& forall|k: int| t.offset <= k < t.offset + t.length ==> run_char(#[trigger] s[k], letters)
    &&& t.offset + t.length < s.len() ==> !run_char(s[t.offset + t.length], letters)
}

proof fn lemma_run_length_maximal(s: Seq<char>, pos: int, letters: bool)
    requires
        0 <= pos <= s.len(),
    ensures
        forall|k: int| pos <= k < pos + run_length(s, pos, letters) ==> run_char(#[trigger] s[k], letters),
        pos + run_length(s, pos, letters) < s.len() ==> !run_char(s[pos + run_length(s, pos, letters)], letters),
    decreases s.len() - pos,
{
    if pos < s.len() && run_char(s[pos], letters) {
        lemma_run_length_maximal(s, pos + 1, letters);
    }
}

/// Every token from `pos` on is the token that starts at its offset.
proof fn lemma_tokens_from_token_at(s: Seq<char>, pos: int)
    requires
        0 <= pos <= s.len(),
        s.len() <= usize::MAX,
    ensures
        forall|i: int|
            0 <= i < tokens_from(s, pos).len() ==> {
                let t = #[trigger] tokens_from(s, pos)[i];
                &&& pos <= t.offset < s.len()
                &&& token_at(s, t.offset as int) == (t.kind, t.length as nat)
            },
    decreases s.len() - pos,
{
    if pos < s.len() {
        let (kind, length) = token_at(s, pos);
        lemma_token_at_bounds(s, pos);
        lemma_tokens_from_token_at(s, pos + length);
        let rest = tokens_from(s, pos + length);
        let all = tokens_from(s, pos);
        assert forall|i: int| 0 <= i < all.len() implies {
            let t = #[trigger] all[i];
            &&& pos <= t.offset < s.len()
            &&& token_at(s, t.offset as int) == (t.kind, t.length as nat)
        } by {
            if i > 0 {
                assert(all[i] == rest[i - 1]);
            }
        }
    }
}

/// Identifier tokens are maximal runs of letters, and trivia tokens maximal runs of
/// white space.
pub proof fn law_identifiers_and_trivia_are_maximal_runs(s: Seq<char>)
    requires
        s.len() <= usize::MAX,
    ensures
        forall|i: int|
            0 <= i < spec_tokenize(s).len() ==> {
                let t = #[trigger] spec_tokenize(s)[i];
                &&& t.kind == TokenKind::Identifier ==> maximal_run(s, t, true)
                &&& t.kind == TokenKind::Trivia ==> maximal_run(s, t, false)
            },
{
    lemma_tokens_from_token_at(s, 0);
    let toks = spec_tokenize(s);
    assert forall|i: int| 0 <= i < toks.len() implies {
        let t = #[trigger] toks[i];
        &&& t.kind == TokenKind::Identifier ==> maximal_run(s, t, true)
        &&& t.kind == TokenKind::Trivia ==> maximal_run(s, t, false)
    } by {
        if i < toks.len() - 1 {
            let t = toks[i];
            assert(t == tokens_from(s, 0)[i]);
            let pos = t.offset as int;
            lemma_run_length_maximal(s, pos + 1, true);
            lemma_run_length_maximal(s, pos + 1, false);
        }
    }
}

/// Every character of `s` is ASCII.
pub open spec fn all_ascii(s: Seq<char>) -> bool {
    forall|i: int| 0 <= i < s.len() ==> is_ascii_char(#[trigger] s[i])
}

/// Splits an ASCII `source` into tokens, trivia included, and appends an end-of-file token.
pub fn tokenize(source: &str) -> (tokens: Vec<Token>)
    requires
        all_ascii(source@),
    ensures
        tokens@ == spec_tokenize(source@),
{
    let mut cursor = Characters::new(source);
    let ghost s = source@;
    let mut tokens: Vec<Token> = Vec::new();
    while cursor.peek().is_some()
        invariant
            cursor.wf(),
            cursor.text() == s,
            all_ascii(s),
            tokens@ + tokens_from(s, cursor.consumed() as int) == tokens_from(s, 0),
        decreases s.len() - cursor.consumed(),
    {
        let ghost pos = cursor.consumed() as int;
        proof {
            lemma_token_at_bounds(s, pos);
        }
        let token = next_token(&mut cursor);
        tokens.push(token);
        assert(tokens_from(s, pos) == seq![token] + tokens_from(s, cursor.consumed() as int));
    }
    assert(tokens_from(s, cursor.consumed() as int) =~= Seq::<Token>::empty());
    tokens.push(Token::new(TokenKind::EndOfFile, cursor.chars_consumed(), 0));
    tokens
}

/// The cursor has consumed exactly `n` more characters than `old` and nothing else changed.
pub open spec fn advanced_by(old: Characters, new: Characters, n: nat) -> bool {
    &&& new.wf()
    &&& new.text() == old.text()
    &&& new.consumed() == old.consumed() + n
}

fn next_token(cursor: &mut Characters) -> (t: Token)
    requires
        old(cursor).wf(),
        all_ascii(old(cursor).text()),
        old(cursor).consumed() < old(cursor).text().len(),
    ensures
        t.kind == token_at(old(cursor).text(), old(cursor).consumed() as int).0,
        t.offset == old(cursor).consumed(),
        t.length == token_at(old(cursor).text(), old(cursor).consumed() as int).1,
        advanced_by(*old(cursor), *final(cursor), t.length as nat),
{
    let ghost s = cursor.text();
    let ghost pos = cursor.consumed() as int;
    proof {
        lemma_token_at_bounds(s, pos);
    }
    let character = match cursor.peek() {
        Some(c) => c,
        None => 'x',
    };
    let offset = cursor.chars_consumed();
    cursor.consume();
    if character == '=' {
        next_token_arrow(cursor, offset)
    } else if character == '(' {
        Token::new(TokenKind::LeftParenthesis, offset, 1)
    } else if character == ')' {
        Token::new(TokenKind::RightParenthesis, offset, 1)
    } else if character == '[' {
        Token::new(TokenKind::LeftBracket, offset, 1)
    } else if character == ']' {
        Token::new(TokenKind::RightBracket, offset, 1)
    } else if character == '|' {
        Token::new(TokenKind::Pipe, offset, 1)
    } else if character == '*' {
        Token::new(TokenKind::Star, offset, 1)
    } else if character == '+' {
        Token::new(TokenKind::Plus, offset, 1)
    } else if character == ';' {
        Token::new(TokenKind::SemiColon, offset, 1)
    } else if character == '\'' {
        next_token_quoted(cursor)
    } else if ('a' <= character && character <= 'z') || ('A' <= character && character <= 'Z') {
        next_token_identifier(cursor, offset)
    } else if ('\u{9}' <= character && character <= '\u{d}') || character == ' ' {
        next_token_trivia(cursor, offset)
    } else {
        next_token_error(cursor, offset)
    }
}

fn next_token_arrow(cursor: &mut Characters, start_offset: usize) -> (t: Token)
    requires
        old(cursor).wf(),
        all_ascii(old(cursor).text()),
        start_offset + 1 == old(cursor).consumed(),
        old(cursor).text()[start_offset as int] == '=',
    ensures
        t.kind == token_at(old(cursor).text(), start_offset as int).0,
        t.offset == start_offset,
        t.length == token_at(old(cursor).text(), start_offset as int).1,
        final(cursor).wf(),
        final(cursor).text() == old(cursor).text(),
        final(cursor).consumed() == start_offset + t.length,
{
    match cursor.peek() {
        Some('>') => {
            cursor.consume();
            Token::new(TokenKind::Arrow, start_offset, cursor.chars_consumed() - start_offset)
        },
        _ => Token::new(TokenKind::Error, start_offset, cursor.chars_consumed() - start_offset),
    }
}

fn next_token_identifier(cursor: &mut Characters, start_offset: usize) -> (t: Token)
    requires
        old(cursor).wf(),
        all_ascii(old(cursor).text()),
        start_offset + 1 == old(cursor).consumed(),
        is_letter(old(cursor).text()[start_offset as int]),
    ensures
        t.kind == token_at(old(cursor).text(), start_offset as int).0,
        t.offset == start_offset,
        t.length == token_at(old(cursor).text(), start_offset as int).1,
        final(cursor).wf(),
        final(cursor).text() == old(cursor).text(),
        final(cursor).consumed() == start_offset + t.length,
{
    let ghost s = cursor.text();
    proof {
        lemma_run_length_bound(s, start_offset + 1, true);
    }
    loop
        invariant
            cursor.wf(),
            cursor.text() == s,
            all_ascii(s),
            start_offset + 1 <= cursor.consumed() <= s.len(),
            run_length(s, start_offset + 1, true) == (cursor.consumed() - start_offset - 1)
                + run_length(s, cursor.consumed() as int, true),
        ensures
            cursor.wf(),
            cursor.text() == s,
            cursor.consumed() == start_offset + 1 + run_length(s, start_offset + 1, true),
        decreases s.len() - cursor.consumed(),
    {
        match cursor.peek() {
            Some(c) => {
                if !(('a' <= c && c <= 'z') || ('A' <= c && c <= 'Z')) {
                    break;
                }
            },
            None => {
                break;
            },
        }
        cursor.consume();
    }
    Token::new(TokenKind::Identifier, start_offset, cursor.chars_consumed() - start_offset)
}

fn next_token_quoted(cursor: &mut Characters) -> (t: Token)
    requires
        old(cursor).wf(),
        all_ascii(old(cursor).text()),
        1 <= old(cursor).consumed(),
        old(cursor).text()[old(cursor).consumed() - 1] == '\'',
    ensures
        t.kind == token_at(old(cursor).text(), old(cursor).consumed() - 1).0,
        t.offset == old(cursor).consumed() - 1,
        t.length == token_at(old(cursor).text(), old(cursor).consumed() - 1).1,
        final(cursor).wf(),
        final(cursor).text() == old(cursor).text(),
        final(cursor).consumed() == t.offset + t.length,
{
    let ghost s = cursor.text();
    let offset = cursor.chars_consumed() - 1;
    proof {
        lemma_until_quote_bound(s, offset + 1);
    }
    while cursor.peek().is_some()
        invariant
            cursor.wf(),
            cursor.text() == s,
            all_ascii(s),
            offset + 1 <= cursor.consumed() <= s.len(),
            offset + 1 == old(cursor).consumed(),
            s == old(cursor).text(),
            s[offset as int] == '\'',
            until_quote(s, offset + 1) == (cursor.consumed() - offset - 1) + until_quote(
                s,
                cursor.consumed() as int,
            ),
        decreases s.len() - cursor.consumed(),
    {
        let c = match cursor.peek() {
            Some(c) => c,
            None => 'x',
        };
        cursor.consume();
        if c == '\'' {
            return Token::new(TokenKind::Quoted, offset, cursor.chars_consumed() - offset);
        }
    }
    Token::new(TokenKind::Error, offset, cursor.chars_consumed() - offset)
}

fn next_token_trivia(cursor: &mut Characters, start_offset: usize) -> (t: Token)
    requires
        old(cursor).wf(),
        all_ascii(old(cursor).text()),
        start_offset + 1 == old(cursor).consumed(),
        is_space(old(cursor).text()[start_offset as int]),
        !is_letter(old(cursor).text()[start_offset as int]),
    ensures
        t.kind == token_at(old(cursor).text(), start_offset as int).0,
        t.offset == start_offset,
        t.length == token_at(old(cursor).text(), start_offset as int).1,
        final(cursor).wf(),
        final(cursor).text() == old(cursor).text(),
        final(cursor).consumed() == start_offset + t.length,
{
    let ghost s = cursor.text();
    proof {
        lemma_run_length_bound(s, start_offset + 1, false);
    }
    loop
        invariant
            cursor.wf(),
            cursor.text() == s,
            all_ascii(s),
            start_offset + 1 <= cursor.consumed() <= s.len(),
            run_length(s, start_offset + 1, false) == (cursor.consumed() - start_offset - 1)
                + run_length(s, cursor.consumed() as int, false),
        ensures
            cursor.wf(),
            cursor.text() == s,
            cursor.consumed() == start_offset + 1 + run_length(s, start_offset + 1, false),
        decreases s.len() - cursor.consumed(),
    {
        match cursor.peek() {
            Some(c) => {
                if !(('\u{9}' <= c && c <= '\u{d}') || c == ' ') {
                    break;
                }
            },
            None => {
                break;
            },
        }
        cursor.consume();
    }
    Token::new(TokenKind::Trivia, start_offset, cursor.chars_consumed() - start_offset)
}

fn next_token_error(cursor: &mut Characters, start_offset: usize) -> (t: Token)
    requires
        old(cursor).wf(),
        start_offset + 1 == old(cursor).consumed(),
    ensures
        t == (Token { kind: TokenKind::Error, offset: start_offset, length: 1 }),
        *final(cursor) == *old(cursor),
{
    Token::new(TokenKind::Error, start_offset, cursor.chars_consumed() - start_offset)
}

} // verus!
