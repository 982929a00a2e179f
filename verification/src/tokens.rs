//! The lexer of the newt language: it splits source text into tokens that cover it
//! exactly, trivia included.
use vstd::prelude::*;
use crate::text::chars_of;

verus! {

/// The kinds of newt tokens.
#[derive(PartialEq, Eq, Structural, Copy, Clone, Debug)]
pub enum TokenKind {
    WhiteSpace,
    CommentLine,
    CommentBlock,
    TombStone,
    Error,
    EndOfFile,
    IntegerLiteral,
    FloatLiteral,
    GlyphLiteral,
    StringLiteral,
    Identifier,
    True,
    False,
    Fn,
    For,
    If,
    Else,
    Let,
    Return,
    While,
    Plus,
    Minus,
    Star,
    Slash,
    Bang,
    Equals,
    EqualsEquals,
    Less,
    LessEquals,
    Greater,
    GreaterEquals,
    Dot,
    Comma,
    Colon,
    SemiColon,
    LeftParenthesis,
    RightParenthesis,
    LeftBrace,
    RightBrace,
}

/// Trivia carries no meaning for the grammar: white space, comments and tombstones.
pub open spec fn spec_is_trivia(kind: TokenKind) -> bool {
    kind == TokenKind::WhiteSpace || kind == TokenKind::CommentLine || kind
        == TokenKind::CommentBlock || kind == TokenKind::TombStone
}

impl TokenKind {
    /// Whether tokens of this kind are trivia.
    pub fn is_trivia(&self) -> (b: bool)
        ensures
            b == spec_is_trivia(*self),
    {
        match self {
            TokenKind::WhiteSpace | TokenKind::CommentLine | TokenKind::CommentBlock
            | TokenKind::TombStone => true,
            _ => false,
        }
    }
}

/// A token: its kind and the span of characters it covers.
#[derive(PartialEq, Eq, Structural, Copy, Clone, Debug)]
pub struct Token {
    pub kind: TokenKind,
    pub offset: usize,
    pub length: usize,
}

impl View for Token {
    type V = (TokenKind, nat, nat);

    open spec fn view(&self) -> (TokenKind, nat, nat) {
        (self.kind, self.offset as nat, self.length as nat)
    }
}

impl Token {
    /// A token of `kind` covering `length` characters from `offset`.
    pub fn new(kind: TokenKind, offset: usize, length: usize) -> (t: Token)
        ensures
            t@ == (kind, offset as nat, length as nat),
    {
        Token { kind, offset, length }
    }

    /// The kind of the token.
    pub fn token_kind(&self) -> (k: TokenKind)
        ensures
            k == self@.0,
    {
        self.kind
    }

    /// The character offset at which the token starts.
    pub fn offset(&self) -> (o: usize)
        ensures
            o == self@.1,
    {
        self.offset
    }

    /// The number of characters the token covers.
    pub fn lexeme_length(&self) -> (l: usize)
        ensures
            l == self@.2,
    {
        self.length
    }
}

/// Character classes the lexer scans runs of.
#[derive(PartialEq, Eq, Structural, Copy, Clone, Debug)]
pub enum CharClass {
    WhiteSpace,
    Digit,
    IdentifierPart,
    NotNewline,
    NotDoubleQuote,
}

pub open spec fn is_white_space(c: char) -> bool {
    c == ' ' || c == '\t' || c == '\n' || c == '\r'
}

pub open spec fn is_digit(c: char) -> bool {
    '0' <= c <= '9'
}

pub open spec fn is_identifier_start(c: char) -> bool {
    ('a' <= c <= 'z') || ('A' <= c <= 'Z') || c == '_'
}

pub open spec fn in_class(class: CharClass, c: char) -> bool {
    match class {
        CharClass::WhiteSpace => is_white_space(c),
        CharClass::Digit => is_digit(c),
        CharClass::IdentifierPart => is_identifier_start(c) || is_digit(c),
        CharClass::NotNewline => c != '\n',
        CharClass::NotDoubleQuote => c != '"',
    }
}

/// The number of consecutive characters of `class` in `s` from `pos`.
pub open spec fn run_length(s: Seq<char>, pos: int, class: CharClass) -> nat
    decreases s.len() - pos,
{
    if pos < 0 || pos >= s.len() || !in_class(class, s[pos]) {
        0
    } else {
        1 + run_length(s, pos + 1, class)
    }
}

/// The number of characters from `pos` up to and including the `*/` that closes a block
/// comment, or up to the end of `s` when it is never closed.
pub open spec fn block_comment_tail(s: Seq<char>, pos: int) -> nat
    decreases s.len() - pos,
{
    if pos < 0 || pos >= s.len() {
        0
    } else if pos + 1 < s.len() && s[pos] == '*' && s[pos + 1] == '/' {
        2
    } else {
        1 + block_comment_tail(s, pos + 1)
    }
}

/// The kind of a word made of identifier characters: a keyword, or an identifier.
pub open spec fn word_kind(w: Seq<char>) -> TokenKind {
    if w == seq!['f', 'n'] {
        TokenKind::Fn
    } else if w == seq!['f', 'o', 'r'] {
        TokenKind::For
    } else if w == seq!['i', 'f'] {
        TokenKind::If
    } else if w == seq!['e', 'l', 's', 'e'] {
        TokenKind::Else
    } else if w == seq!['l', 'e', 't'] {
        TokenKind::Let
    } else if w == seq!['r', 'e', 't', 'u', 'r', 'n'] {
        TokenKind::Return
    } else if w == seq!['w', 'h', 'i', 'l', 'e'] {
        TokenKind::While
    } else if w == seq!['t', 'r', 'u', 'e'] {
        TokenKind::True
    } else if w == seq!['f', 'a', 'l', 's', 'e'] {
        TokenKind::False
    } else {
        TokenKind::Identifier
    }
}

/// The kind of a one-character operator or punctuation mark, if `c` is one.
pub open spec fn punctuation_kind(c: char) -> Option<TokenKind> {
    if c == '+' {
        Some(TokenKind::Plus)
    } else if c == '-' {
        Some(TokenKind::Minus)
    } else if c == '*' {
        Some(TokenKind::Star)
    } else if c == '/' {
        Some(TokenKind::Slash)
    } else if c == '!' {
        Some(TokenKind::Bang)
    } else if c == '.' {
        Some(TokenKind::Dot)
    } else if c == ',' {
        Some(TokenKind::Comma)
    } else if c == ':' {
        Some(TokenKind::Colon)
    } else if c == ';' {
        Some(TokenKind::SemiColon)
    } else if c == '(' {
        Some(TokenKind::LeftParenthesis)
    } else if c == ')' {
        Some(TokenKind::RightParenthesis)
    } else if c == '{' {
        Some(TokenKind::LeftBrace)
    } else if c == '}' {
        Some(TokenKind::RightBrace)
    } else {
        None
    }
}

/// The kind and length of a number starting at `pos`: digits, then optionally a `.`,
/// at least one digit and an optional `f` suffix for a float.
pub open spec fn number_token(s: Seq<char>, pos: int) -> (TokenKind, nat) {
    let k = run_length(s, pos, CharClass::Digit);
    if pos + k + 1 < s.len() && s[pos + k] == '.' && is_digit(s[pos + k + 1]) {
        let l = k + 1 + run_length(s, pos + k + 1, CharClass::Digit);
        if pos + l < s.len() && s[pos + l] == 'f' {
            (TokenKind::FloatLiteral, (l + 1) as nat)
        } else {
            (TokenKind::FloatLiteral, l as nat)
        }
    } else {
        (TokenKind::IntegerLiteral, k)
    }
}

/// The kind and length of an operator starting with `c` that may be followed by `=`.
pub open spec fn comparison_token(s: Seq<char>, pos: int, one: TokenKind, two: TokenKind) -> (
    TokenKind,
    nat,
) {
    if pos + 1 < s.len() && s[pos + 1] == '=' {
        (two, 2)
    } else {
        (one, 1)
    }
}

/// The kind and length of the token that starts at `pos` of `s`.
pub open spec fn token_at(s: Seq<char>, pos: int) -> (TokenKind, nat) {
    let c = s[pos];
    if is_white_space(c) {
        (TokenKind::WhiteSpace, run_length(s, pos, CharClass::WhiteSpace))
    } else if c == '/' && pos + 1 < s.len() && s[pos + 1] == '/' {
        (TokenKind::CommentLine, 2 + run_length(s, pos + 2, CharClass::NotNewline))
    } else if c == '/' && pos + 1 < s.len() && s[pos + 1] == '*' {
        (TokenKind::CommentBlock, 2 + block_comment_tail(s, pos + 2))
    } else if is_digit(c) {
        number_token(s, pos)
    } else if c == '"' {
        let k = run_length(s, pos + 1, CharClass::NotDoubleQuote);
        if pos + 1 + k < s.len() {
            (TokenKind::StringLiteral, k + 2)
        } else {
            (TokenKind::Error, k + 1)
        }
    } else if c == '\'' {
        if pos + 2 < s.len() && s[pos + 2] == '\'' {
            (TokenKind::GlyphLiteral, 3)
        } else {
            (TokenKind::Error, 1)
        }
    } else if is_identifier_start(c) {
        let k = run_length(s, pos, CharClass::IdentifierPart);
        (word_kind(s.subrange(pos, pos + k)), k)
    } else if c == '=' {
        comparison_token(s, pos, TokenKind::Equals, TokenKind::EqualsEquals)
    } else if c == '<' {
        comparison_token(s, pos, TokenKind::Less, TokenKind::LessEquals)
    } else if c == '>' {
        comparison_token(s, pos, TokenKind::Greater, TokenKind::GreaterEquals)
    } else {
        match punctuation_kind(c) {
            Some(kind) => (kind, 1),
            None => (TokenKind::Error, 1),
        }
    }
}

pub proof fn lemma_run_length_bound(s: Seq<char>, pos: int, class: CharClass)
    requires
        0 <= pos <= s.len(),
    ensures
        pos + run_length(s, pos, class) <= s.len(),
    decreases s.len() - pos,
{
    if pos < s.len() && in_class(class, s[pos]) {
        lemma_run_length_bound(s, pos + 1, class);
    }
}

pub proof fn lemma_block_comment_tail_bound(s: Seq<char>, pos: int)
    requires
        0 <= pos <= s.len(),
    ensures
        pos + block_comment_tail(s, pos) <= s.len(),
    decreases s.len() - pos,
{
    if pos < s.len() && !(pos + 1 < s.len() && s[pos] == '*' && s[pos + 1] == '/') {
        lemma_block_comment_tail_bound(s, pos + 1);
    }
}

/// Every token is at least one character long and ends within the text.
pub proof fn lemma_token_at_bounds(s: Seq<char>, pos: int)
    requires
        0 <= pos < s.len(),
    ensures
        1 <= token_at(s, pos).1,
        pos + token_at(s, pos).1 <= s.len(),
{
    let c = s[pos];
    lemma_run_length_bound(s, pos, CharClass::WhiteSpace);
    lemma_run_length_bound(s, pos, CharClass::Digit);
    lemma_run_length_bound(s, pos, CharClass::IdentifierPart);
    if pos + 1 <= s.len() {
        lemma_run_length_bound(s, pos + 1, CharClass::NotDoubleQuote);
    }
    if pos + 2 <= s.len() {
        lemma_run_length_bound(s, pos + 2, CharClass::NotNewline);
        lemma_block_comment_tail_bound(s, pos + 2);
    }
    if is_digit(c) {
        let k = run_length(s, pos, CharClass::Digit);
        if pos + k + 1 < s.len() {
            lemma_run_length_bound(s, pos + k + 1, CharClass::Digit);
        }
    }
}

/// The tokens of `s` from `pos` to its end, each as (kind, offset, length).
pub open spec fn tokens_from(s: Seq<char>, pos: int) -> Seq<(TokenKind, nat, nat)>
    decreases s.len() - pos,
{
    if pos < 0 || pos >= s.len() {
        Seq::empty()
    } else {
        let (kind, length) = token_at(s, pos);
        proof {
            lemma_token_at_bounds(s, pos);
        }
        seq![(kind, pos as nat, length)] + tokens_from(s, pos + length)
    }
}

/// The tokens of a whole text.
pub open spec fn spec_tokenize(s: Seq<char>) -> Seq<(TokenKind, nat, nat)> {
    tokens_from(s, 0)
}

/// The spans `toks` lie one after another from `start` to `end`, none of them empty.
pub open spec fn spans_cover(toks: Seq<(TokenKind, nat, nat)>, start: nat, end: nat) -> bool {
    &&& forall|i: int| 0 <= i < toks.len() ==> #[trigger] toks[i].2 >= 1
    &&& toks.len() == 0 ==> start == end
    &&& toks.len() > 0 ==> toks[0].1 == start
    &&& toks.len() > 0 ==> toks.last().1 + toks.last().2 == end
    &&& forall|i: int| 0 <= i < toks.len() - 1 ==> #[trigger] toks[i + 1].1 == toks[i].1 + toks[i].2
}

proof fn lemma_tokens_from_cover(s: Seq<char>, pos: int)
    requires
        0 <= pos <= s.len(),
    ensures
        spans_cover(tokens_from(s, pos), pos as nat, s.len()),
    decreases s.len() - pos,
{
    if pos < s.len() {
        let (kind, length) = token_at(s, pos);
        lemma_token_at_bounds(s, pos);
        lemma_tokens_from_cover(s, pos + length);
        let rest = tokens_from(s, pos + length);
        let all = tokens_from(s, pos);
        assert(all == seq![(kind, pos as nat, length)] + rest);
        assert forall|i: int| 0 <= i < all.len() - 1 implies #[trigger] all[i + 1].1 == all[i].1
            + all[i].2 by {
            assert(all[i + 1] == rest[i]);
            if i > 0 {
                assert(all[i] == rest[i - 1]);
                assert(rest[(i - 1) + 1].1 == rest[i - 1].1 + rest[i - 1].2);
            }
        }
        assert forall|i: int| 0 <= i < all.len() implies #[trigger] all[i].2 >= 1 by {
            if i > 0 {
                assert(all[i] == rest[i - 1]);
            }
        }
    }
}

/// The tokens of a text cover it exactly: each is at least one character long, the
/// first starts at 0, each starts where the one before it ends, and the last ends at
/// the end of the text.
pub proof fn law_tokens_cover_text(s: Seq<char>)
    ensures
        spans_cover(spec_tokenize(s), 0, s.len()),
{
    lemma_tokens_from_cover(s, 0);
}

/// A character that can continue a name: an ASCII letter, a digit or `_`.
pub open spec fn word_char(c: char) -> bool {
    ('a' <= c <= 'z') || ('A' <= c <= 'Z') || ('0' <= c <= '9') || c == '_'
}

proof fn lemma_run_length_maximal(s: Seq<char>, pos: int, class: CharClass)
    requires
        0 <= pos <= s.len(),
    ensures
        forall|k: int| pos <= k < pos + run_length(s, pos, class) ==> in_class(class, #[trigger] s[k]),
        pos + run_length(s, pos, class) < s.len() ==> !in_class(class, s[pos + run_length(s, pos, class)]),
    decreases s.len() - pos,
{
    if pos < s.len() && in_class(class, s[pos]) {
        lemma_run_length_maximal(s, pos + 1, class);
    }
}

/// Every token from `pos` on is the token that starts at its offset.
proof fn lemma_tokens_from_token_at(s: Seq<char>, pos: int)
    requires
        0 <= pos <= s.len(),
    ensures
        forall|i: int|
            0 <= i < tokens_from(s, pos).len() ==> {
                let t = #[trigger] tokens_from(s, pos)[i];
                &&& pos <= t.1 < s.len()
                &&& token_at(s, t.1 as int) == (t.0, t.2)
            },
    decreases s.len() - pos,
{
    if pos < s.len() {
        let (kind, length) = token_at(s, pos);
        lemma_token_at_bounds(s, pos);
        lemma_tokens_from_token_at(s, pos + length);
        let rest = tokens_from(s, pos + length);
        let all = tokens_from(s, pos);
        assert forall|i: int| 0 <= i < all.len() implies {
            let t = #[trigger] all[i];
            &&& pos <= t.1 < s.len()
            &&& token_at(s, t.1 as int) == (t.0, t.2)
        } by {
            if i > 0 {
                assert(all[i] == rest[i - 1]);
            }
        }
    }
}

/// A token that starts with a letter or `_` (a name or a keyword) is a whole word: all
/// its characters are letters, digits or `_`, and the character after it, if any, is
/// none of them.
pub proof fn law_words_are_maximal(s: Seq<char>)
    ensures
        forall|i: int|
            0 <= i < spec_tokenize(s).len() && ({
                let c = s[(#[trigger] spec_tokenize(s)[i]).1 as int];
                ('a' <= c <= 'z') || ('A' <= c <= 'Z') || c == '_'
            }) ==> {
                let t = spec_tokenize(s)[i];
                &&& forall|k: int| t.1 <= k < t.1 + t.2 ==> word_char(#[trigger] s[k])
                &&& t.1 + t.2 < s.len() ==> !word_char(s[(t.1 + t.2) as int])
            },
{
    lemma_tokens_from_token_at(s, 0);
    let toks = spec_tokenize(s);
    assert forall|i: int|
        0 <= i < toks.len() && ({
            let c = s[(#[trigger] toks[i]).1 as int];
            ('a' <= c <= 'z') || ('A' <= c <= 'Z') || c == '_'
        }) implies {
        let t = toks[i];
        &&& forall|k: int| t.1 <= k < t.1 + t.2 ==> word_char(#[trigger] s[k])
        &&& t.1 + t.2 < s.len() ==> !word_char(s[(t.1 + t.2) as int])
    } by {
        let t = toks[i];
        let pos = t.1 as int;
        lemma_run_length_maximal(s, pos, CharClass::IdentifierPart);
        assert(token_at(s, pos).1 == run_length(s, pos, CharClass::IdentifierPart));
        assert forall|k: int| t.1 <= k < t.1 + t.2 implies word_char(#[trigger] s[k]) by {
            assert(in_class(CharClass::IdentifierPart, s[k]));
        }
    }
}

fn class_contains(class: CharClass, c: char) -> (b: bool)
    ensures
        b == in_class(class, c),
{
    match class {
        CharClass::WhiteSpace => c == ' ' || c == '\t' || c == '\n' || c == '\r',
        CharClass::Digit => '0' <= c && c <= '9',
        CharClass::IdentifierPart => ('a' <= c && c <= 'z') || ('A' <= c && c <= 'Z') || c == '_'
            || ('0' <= c && c <= '9'),
        CharClass::NotNewline => c != '\n',
        CharClass::NotDoubleQuote => c != '"',
    }
}

fn scan_run(chars: &Vec<char>, pos: usize, class: CharClass) -> (end: usize)
    requires
        pos <= chars@.len(),
    ensures
        end == pos + run_length(chars@, pos as int, class),
{
    let mut end = pos;
    proof {
        lemma_run_length_bound(chars@, pos as int, class);
    }
    while end < chars.len() && class_contains(class, chars[end])
        invariant
            pos <= end <= chars@.len(),
            run_length(chars@, pos as int, class) == (end - pos) + run_length(
                chars@,
                end as int,
                class,
            ),
        decreases chars@.len() - end,
    {
        end = end + 1;
    }
    end
}

fn scan_block_comment(chars: &Vec<char>, pos: usize) -> (end: usize)
    requires
        pos <= chars@.len(),
    ensures
        end == pos + block_comment_tail(chars@, pos as int),
{
    let mut i = pos;
    proof {
        lemma_block_comment_tail_bound(chars@, pos as int);
    }
    while i < chars.len()
        invariant
            pos <= i <= chars@.len(),
            block_comment_tail(chars@, pos as int) == (i - pos) + block_comment_tail(
                chars@,
                i as int,
            ),
        decreases chars@.len() - i,
    {
        if i + 1 < chars.len() && chars[i] == '*' && chars[i + 1] == '/' {
            return i + 2;
        }
        i = i + 1;
    }
    i
}

fn word_kind_of(chars: &Vec<char>, start: usize, end: usize) -> (k: TokenKind)
    requires
        start <= end <= chars@.len(),
    ensures
        k == word_kind(chars@.subrange(start as int, end as int)),
{
    let ghost w = chars@.subrange(start as int, end as int);
    let n = end - start;
    assert(w.len() == n);
    let c0 = if n > 0 { chars[start] } else { ' ' };
    let c1 = if n > 1 { chars[start + 1] } else { ' ' };
    let c2 = if n > 2 { chars[start + 2] } else { ' ' };
    let c3 = if n > 3 { chars[start + 3] } else { ' ' };
    let c4 = if n > 4 { chars[start + 4] } else { ' ' };
    let c5 = if n > 5 { chars[start + 5] } else { ' ' };
    assert(n > 0 ==> w[0] == c0);
    assert(n > 1 ==> w[1] == c1);
    assert(n > 2 ==> w[2] == c2);
    assert(n > 3 ==> w[3] == c3);
    assert(n > 4 ==> w[4] == c4);
    assert(n > 5 ==> w[5] == c5);
    if n == 2 && c0 == 'f' && c1 == 'n' {
        assert(w =~= seq!['f', 'n']);
        TokenKind::Fn
    } else if n == 3 && c0 == 'f' && c1 == 'o' && c2 == 'r' {
        assert(w =~= seq!['f', 'o', 'r']);
        TokenKind::For
    } else if n == 2 && c0 == 'i' && c1 == 'f' {
        assert(w =~= seq!['i', 'f']);
        TokenKind::If
    } else if n == 4 && c0 == 'e' && c1 == 'l' && c2 == 's' && c3 == 'e' {
        assert(w =~= seq!['e', 'l', 's', 'e']);
        TokenKind::Else
    } else if n == 3 && c0 == 'l' && c1 == 'e' && c2 == 't' {
        assert(w =~= seq!['l', 'e', 't']);
        TokenKind::Let
    } else if n == 6 && c0 == 'r' && c1 == 'e' && c2 == 't' && c3 == 'u' && c4 == 'r' && c5
        == 'n' {
        assert(w =~= seq!['r', 'e', 't', 'u', 'r', 'n']);
        TokenKind::Return
    } else if n == 5 && c0 == 'w' && c1 == 'h' && c2 == 'i' && c3 == 'l' && c4 == 'e' {
        assert(w =~= seq!['w', 'h', 'i', 'l', 'e']);
        TokenKind::While
    } else if n == 4 && c0 == 't' && c1 == 'r' && c2 == 'u' && c3 == 'e' {
        assert(w =~= seq!['t', 'r', 'u', 'e']);
        TokenKind::True
    } else if n == 5 && c0 == 'f' && c1 == 'a' && c2 == 'l' && c3 == 's' && c4 == 'e' {
        assert(w =~= seq!['f', 'a', 'l', 's', 'e']);
        TokenKind::False
    } else {
        assert(w != seq!['f', 'n']) by {
            if w == seq!['f', 'n'] {
                assert(w[0] == 'f' && w[1] == 'n');
            }
        }
        assert(w != seq!['f', 'o', 'r']) by {
            if w == seq!['f', 'o', 'r'] {
                assert(w[0] == 'f' && w[1] == 'o' && w[2] == 'r');
            }
        }
        assert(w != seq!['i', 'f']) by {
            if w == seq!['i', 'f'] {
                assert(w[0] == 'i' && w[1] == 'f');
            }
        }
        assert(w != seq!['e', 'l', 's', 'e']) by {
            if w == seq!['e', 'l', 's', 'e'] {
                assert(w[0] == 'e' && w[1] == 'l' && w[2] == 's' && w[3] == 'e');
            }
        }
        assert(w != seq!['l', 'e', 't']) by {
            if w == seq!['l', 'e', 't'] {
                assert(w[0] == 'l' && w[1] == 'e' && w[2] == 't');
            }
        }
        assert(w != seq!['r', 'e', 't', 'u', 'r', 'n']) by {
            if w == seq!['r', 'e', 't', 'u', 'r', 'n'] {
                assert(w[0] == 'r' && w[1] == 'e' && w[2] == 't' && w[3] == 'u' && w[4] == 'r'
                    && w[5] == 'n');
            }
        }
        assert(w != seq!['w', 'h', 'i', 'l', 'e']) by {
            if w == seq!['w', 'h', 'i', 'l', 'e'] {
                assert(w[0] == 'w' && w[1] == 'h' && w[2] == 'i' && w[3] == 'l' && w[4] == 'e');
            }
        }
        assert(w != seq!['t', 'r', 'u', 'e']) by {
            if w == seq!['t', 'r', 'u', 'e'] {
                assert(w[0] == 't' && w[1] == 'r' && w[2] == 'u' && w[3] == 'e');
            }
        }
        assert(w != seq!['f', 'a', 'l', 's', 'e']) by {
            if w == seq!['f', 'a', 'l', 's', 'e'] {
                assert(w[0] == 'f' && w[1] == 'a' && w[2] == 'l' && w[3] == 's' && w[4] == 'e');
            }
        }
        TokenKind::Identifier
    }
}

fn punctuation_kind_of(c: char) -> (k: Option<TokenKind>)
    ensures
        k == punctuation_kind(c),
{
    if c == '+' {
        Some(TokenKind::Plus)
    } else if c == '-' {
        Some(TokenKind::Minus)
    } else if c == '*' {
        Some(TokenKind::Star)
    } else if c == '/' {
        Some(TokenKind::Slash)
    } else if c == '!' {
        Some(TokenKind::Bang)
    } else if c == '.' {
        Some(TokenKind::Dot)
    } else if c == ',' {
        Some(TokenKind::Comma)
    } else if c == ':' {
        Some(TokenKind::Colon)
    } else if c == ';' {
        Some(TokenKind::SemiColon)
    } else if c == '(' {
        Some(TokenKind::LeftParenthesis)
    } else if c == ')' {
        Some(TokenKind::RightParenthesis)
    } else if c == '{' {
        Some(TokenKind::LeftBrace)
    } else if c == '}' {
        Some(TokenKind::RightBrace)
    } else {
        None
    }
}

fn next_token(chars: &Vec<char>, pos: usize) -> (r: (TokenKind, usize))
    requires
        pos < chars@.len(),
    ensures
        r.0 == token_at(chars@, pos as int).0,
        r.1 == token_at(chars@, pos as int).1,
{
    let ghost s = chars@;
    proof {
        lemma_token_at_bounds(s, pos as int);
    }
    let n = chars.len();
    let c = chars[pos];
    if c == ' ' || c == '\t' || c == '\n' || c == '\r' {
        let end = scan_run(chars, pos, CharClass::WhiteSpace);
        (TokenKind::WhiteSpace, end - pos)
    } else if c == '/' && pos + 1 < n && chars[pos + 1] == '/' {
        let end = scan_run(chars, pos + 2, CharClass::NotNewline);
        (TokenKind::CommentLine, end - pos)
    } else if c == '/' && pos + 1 < n && chars[pos + 1] == '*' {
        let end = scan_block_comment(chars, pos + 2);
        (TokenKind::CommentBlock, end - pos)
    } else if '0' <= c && c <= '9' {
        let digits_end = scan_run(chars, pos, CharClass::Digit);
        proof {
            lemma_run_length_bound(s, pos as int, CharClass::Digit);
        }
        if digits_end < n - 1 && chars[digits_end] == '.' && '0' <= chars[digits_end + 1]
            && chars[digits_end + 1] <= '9' {
            let fraction_end = scan_run(chars, digits_end + 1, CharClass::Digit);
            if fraction_end < n && chars[fraction_end] == 'f' {
                (TokenKind::FloatLiteral, fraction_end + 1 - pos)
            } else {
                (TokenKind::FloatLiteral, fraction_end - pos)
            }
        } else {
            (TokenKind::IntegerLiteral, digits_end - pos)
        }
    } else if c == '"' {
        let end = scan_run(chars, pos + 1, CharClass::NotDoubleQuote);
        if end < n {
            (TokenKind::StringLiteral, end + 1 - pos)
        } else {
            (TokenKind::Error, end - pos)
        }
    } else if c == '\'' {
        if n - pos > 2 && chars[pos + 2] == '\'' {
            (TokenKind::GlyphLiteral, 3)
        } else {
            (TokenKind::Error, 1)
        }
    } else if ('a' <= c && c <= 'z') || ('A' <= c && c <= 'Z') || c == '_' {
        let end = scan_run(chars, pos, CharClass::IdentifierPart);
        (word_kind_of(chars, pos, end), end - pos)
    } else if c == '=' || c == '<' || c == '>' {
        let followed_by_equals = pos + 1 < n && chars[pos + 1] == '=';
        let kind = if c == '=' {
            if followed_by_equals {
                TokenKind::EqualsEquals
            } else {
                TokenKind::Equals
            }
        } else if c == '<' {
            if followed_by_equals {
                TokenKind::LessEquals
            } else {
                TokenKind::Less
            }
        } else {
            if followed_by_equals {
                TokenKind::GreaterEquals
            } else {
                TokenKind::Greater
            }
        };
        (kind, if followed_by_equals { 2 } else { 1 })
    } else {
        match punctuation_kind_of(c) {
            Some(kind) => (kind, 1),
            None => (TokenKind::Error, 1),
        }
    }
}

/// Splits `source` into tokens, trivia included. The tokens cover the source exactly,
/// one after the other; no end-of-file token is appended.
pub fn tokenize(source: &str) -> (tokens: Vec<Token>)
    ensures
        tokens@.map_values(|t: Token| t@) == spec_tokenize(source@),
{
    let chars = chars_of(source);
    let ghost s = chars@;
    let mut tokens: Vec<Token> = Vec::new();
    let mut pos: usize = 0;
    while pos < chars.len()
        invariant
            s == chars@,
            pos <= s.len(),
            tokens@.map_values(|t: Token| t@) + tokens_from(s, pos as int) == tokens_from(s, 0),
        decreases s.len() - pos,
    {
        let (kind, length) = next_token(&chars, pos);
        proof {
            lemma_token_at_bounds(s, pos as int);
        }
        let ghost before = tokens@.map_values(|t: Token| t@);
        tokens.push(Token::new(kind, pos, length));
        assert(tokens@.map_values(|t: Token| t@) =~= before.push((kind, pos as nat, length as nat)));
        assert(tokens_from(s, pos as int) == seq![(kind, pos as nat, length as nat)]
            + tokens_from(s, pos + length));
        pos = pos + length;
    }
    assert(tokens_from(s, pos as int) =~= Seq::<(TokenKind, nat, nat)>::empty());
    assert(tokens@.map_values(|t: Token| t@) =~= tokens_from(s, 0));
    tokens
}

/// The tokens of a source, read by index; past the last token every index reads
/// as an empty end-of-file token.
#[derive(Clone)]
pub struct StrTokenSource {
    tokens: Vec<Token>,
}

/// The token at `index`, or an empty end-of-file token at offset 0 past the end.
pub open spec fn token_or_eof(tokens: Seq<Token>, index: int) -> Token {
    if 0 <= index < tokens.len() {
        tokens[index]
    } else {
        Token { kind: TokenKind::EndOfFile, offset: 0, length: 0 }
    }
}

impl StrTokenSource {
    /// A source reading `tokens`.
    pub fn new(tokens: Vec<Token>) -> (s: StrTokenSource)
        ensures
            s.tokens() == tokens@,
    {
        StrTokenSource { tokens }
    }

    /// The tokens of the source.
    pub closed spec fn tokens(&self) -> Seq<Token> {
        self.tokens@
    }

    /// The token at `index`; past the end, an empty end-of-file token.
    pub fn token(&self, index: usize) -> (t: Token)
        ensures
            t == token_or_eof(self.tokens(), index as int),
    {
        if index < self.tokens.len() {
            self.tokens[index]
        } else {
            Token { kind: TokenKind::EndOfFile, offset: 0, length: 0 }
        }
    }

    /// The number of tokens.
    pub fn len(&self) -> (n: usize)
        ensures
            n == self.tokens().len(),
    {
        self.tokens.len()
    }
}

} // verus!
