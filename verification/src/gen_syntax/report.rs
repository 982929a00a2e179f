//! Error reports: a message, the line of the error, and the source lines around it with
//! the span of the error marked.
use vstd::prelude::*;
use crate::gen_syntax::tokens::{TokenKind, all_ascii};
use crate::gen_syntax::parse::{ErrorKindModel, ParseError, ParseErrorKind};
use crate::text::chars_of;

verus! {

/// The name of a token kind, as its variant is spelled.
pub open spec fn kind_name(k: TokenKind) -> &'static str {
    match k {
        TokenKind::Error => "Error",
        TokenKind::EndOfFile => "EndOfFile",
        TokenKind::Trivia => "Trivia",
        TokenKind::SemiColon => "SemiColon",
        TokenKind::Identifier => "Identifier",
        TokenKind::Arrow => "Arrow",
        TokenKind::LeftParenthesis => "LeftParenthesis",
        TokenKind::RightParenthesis => "RightParenthesis",
        TokenKind::LeftBracket => "LeftBracket",
        TokenKind::RightBracket => "RightBracket",
        TokenKind::Quoted => "Quoted",
        TokenKind::Pipe => "Pipe",
        TokenKind::Star => "Star",
        TokenKind::Plus => "Plus",
    }
}

/// The message that reports an error of kind `kind`.
pub open spec fn message_of(kind: ErrorKindModel) -> Seq<char> {
    match kind {
        ErrorKindModel::UnexpectedToken { expected, actual } => "Expected "@ + kind_name(expected)@
            + ", but found "@ + kind_name(actual)@ + "."@,
        ErrorKindModel::MissingSyntax { message } => message@,
        ErrorKindModel::DuplicateSymbol { symbol } => "Duplicate symbol "@ + symbol + "."@,
        ErrorKindModel::UndefinedSymbol { symbol } => "Undefined symbol "@ + symbol + "."@,
        ErrorKindModel::AmbiguousPipe => "An option of '|' refers to more than one rule."@,
    }
}

/// The index of the first line feed of `s` at or after `i`, or the length of `s`.
pub open spec fn first_newline(s: Seq<char>, i: int) -> int
    decreases s.len() - i,
{
    if i < 0 || i >= s.len() {
        s.len() as int
    } else if s[i] == '\n' {
        i
    } else {
        first_newline(s, i + 1)
    }
}

/// Where the next line feed from `i` lies, and that none comes before it.
pub proof fn lemma_first_newline_bounds(s: Seq<char>, i: int)
    requires
        0 <= i <= s.len(),
    ensures
        i <= first_newline(s, i) <= s.len(),
        first_newline(s, i) < s.len() ==> s[first_newline(s, i)] == '\n',
        forall|j: int| i <= j < first_newline(s, i) ==> s[j] != '\n',
    decreases s.len() - i,
{
    if i < s.len() && s[i] != '\n' {
        lemma_first_newline_bounds(s, i + 1);
    }
}

/// `s` without one trailing carriage return, if it has one.
pub open spec fn strip_cr(s: Seq<char>) -> Seq<char> {
    if s.len() > 0 && s.last() == '\r' {
        s.drop_last()
    } else {
        s
    }
}

/// The lines of `s` from index `start`: split after each line feed, with the line feed
/// and a carriage return just before it removed; no empty line after a final line feed.
pub open spec fn lines_from(s: Seq<char>, start: int) -> Seq<Seq<char>>
    decreases s.len() - start,
{
    if start < 0 || start >= s.len() {
        Seq::empty()
    } else {
        let n = first_newline(s, start);
        proof {
            lemma_first_newline_bounds(s, start);
        }
        if n >= s.len() {
            seq![s.subrange(start, s.len() as int)]
        } else {
            seq![strip_cr(s.subrange(start, n))] + lines_from(s, n + 1)
        }
    }
}

/// The lines of a text.
pub open spec fn text_lines(s: Seq<char>) -> Seq<Seq<char>> {
    lines_from(s, 0)
}

/// The number of line feeds in `s`.
pub open spec fn newline_count(s: Seq<char>) -> nat
    decreases s.len(),
{
    if s.len() == 0 {
        0
    } else {
        newline_count(s.drop_last()) + if s.last() == '\n' {
            1nat
        } else {
            0nat
        }
    }
}

/// Where line `k` is taken to start: the lengths of the lines before it, plus one each.
pub open spec fn line_offset(lines: Seq<Seq<char>>, k: int) -> int
    decreases k,
{
    if k <= 0 {
        0
    } else {
        line_offset(lines, k - 1) + lines[k - 1].len() + 1
    }
}

/// The part of the span `from..to` that falls on line `k`, relative to the line's start.
pub open spec fn line_span(lines: Seq<Seq<char>>, k: int, from: int, to: int) -> Option<(usize, usize)> {
    let l0 = line_offset(lines, k);
    let l1 = l0 + lines[k].len();
    if l1 < from || l0 > to {
        None
    } else {
        let a = if l0 > from { l0 } else { from };
        let b = if l1 < to { l1 } else { to };
        Some(((a - l0) as usize, (b - l0) as usize))
    }
}

/// The number of lines of context shown before and after the line of an error.
pub open spec fn context_lines() -> int {
    1
}

/// The first line shown: one line before the line of the error, when there is one.
pub open spec fn first_shown(source: Seq<char>, from: int) -> int {
    let preceding = newline_count(source.take(from));
    if preceding > 0 {
        preceding - 1
    } else {
        0
    }
}

/// One shown line of a report: its number from 1, its text, and the error's span on it.
pub open spec fn shown_line(lines: Seq<Seq<char>>, k: int, from: int, to: int) -> (nat, Seq<char>, Option<(usize, usize)>) {
    ((k + 1) as nat, lines[k], line_span(lines, k, from, to))
}

/// A report line: its number, its text, and the span of the error on it.
pub struct ErrorReportLine {
    line_number: usize,
    line: String,
    error_span: Option<(usize, usize)>,
}

impl View for ErrorReportLine {
    type V = (nat, Seq<char>, Option<(usize, usize)>);

    closed spec fn view(&self) -> (nat, Seq<char>, Option<(usize, usize)>) {
        (self.line_number as nat, self.line@, self.error_span)
    }
}

impl ErrorReportLine {
    /// The line's number, counted from 1.
    pub fn line_number(&self) -> (n: usize)
        ensures
            n == self@.0,
    {
        self.line_number
    }

    /// The text of the line.
    pub fn line(&self) -> (s: &str)
        ensures
            s@ == self@.1,
    {
        self.line.as_str()
    }

    /// The start and end, within the line, of the part covered by the error, if any.
    pub fn error_span(&self) -> (r: Option<(usize, usize)>)
        ensures
            r == self@.2,
    {
        self.error_span
    }
}

/// A report on an error: its message, the number of its line, and the lines around it.
pub struct ErrorReport {
    pub message: String,
    pub line_number: usize,
    lines: Vec<ErrorReportLine>,
}

impl ErrorReport {
    /// The report's message.
    pub closed spec fn spec_message(&self) -> Seq<char> {
        self.message@
    }

    /// The number of the error's line.
    pub closed spec fn spec_line_number(&self) -> nat {
        self.line_number as nat
    }

    /// The shown lines, first to last.
    pub closed spec fn shown(&self) -> Seq<(nat, Seq<char>, Option<(usize, usize)>)> {
        self.lines@.map_values(|l: ErrorReportLine| l@)
    }

    /// The shown lines.
    pub fn lines(&self) -> (l: &Vec<ErrorReportLine>)
        ensures
            l@.map_values(|x: ErrorReportLine| x@) == self.shown(),
    {
        &self.lines
    }
}

/// What a report shows of `source` around the span `from..to`: from the line before
/// the error's line, at most three lines, each with its number, text and marked span.
pub open spec fn shown_lines(source: Seq<char>, from: int, to: int) -> Seq<(nat, Seq<char>, Option<(usize, usize)>)> {
    let lines = text_lines(source);
    let first = first_shown(source, from);
    let last = if first + 2 * context_lines() + 1 < lines.len() {
        first + 2 * context_lines() + 1
    } else {
        lines.len() as int
    };
    let count: nat = if last > first {
        (last - first) as nat
    } else {
        0
    };
    Seq::new(count, |i: int| shown_line(lines, first + i, from, to))
}

/// A report shows at most three lines, numbered consecutively from the line before the
/// error's line (or the first line), and, when the error's line exists, shows it.
pub proof fn law_report_shows_the_error_line(source: Seq<char>, from: int, to: int)
    requires
        0 <= from <= source.len(),
    ensures
        shown_lines(source, from, to).len() <= 3,
        forall|i: int|
            0 <= i < shown_lines(source, from, to).len() ==> #[trigger] shown_lines(
                source,
                from,
                to,
            )[i].0 == first_shown(source, from) + i + 1,
        newline_count(source.take(from)) < text_lines(source).len() ==> exists|i: int|
            0 <= i < shown_lines(source, from, to).len() && #[trigger] shown_lines(
                source,
                from,
                to,
            )[i].0 == newline_count(source.take(from)) + 1,
{
    let shown = shown_lines(source, from, to);
    let preceding = newline_count(source.take(from));
    if preceding < text_lines(source).len() {
        let i = preceding - first_shown(source, from);
        assert(0 <= i < shown.len());
        assert(shown[i].0 == preceding + 1);
    }
}

/// The escape code that turns the foreground red.
pub open spec fn red_code() -> Seq<char> {
    seq!['\u{1b}', '[', '3', '1', 'm']
}

/// The escape code that turns on underlining with a red foreground.
pub open spec fn red_underline_code() -> Seq<char> {
    seq!['\u{1b}', '[', '4', ';', '3', '1', 'm']
}

/// The escape code that resets every style.
pub open spec fn reset_code() -> Seq<char> {
    seq!['\u{1b}', '[', '0', 'm']
}

/// `text` shown in red on a terminal.
pub open spec fn red(text: Seq<char>) -> Seq<char> {
    red_code() + text + reset_code()
}

/// `text` shown red and underlined on a terminal.
pub open spec fn red_underlined(text: Seq<char>) -> Seq<char> {
    red_underline_code() + text + reset_code()
}

/// `ansi_term::Colour::Red.paint(text)`, written out: the red escape code, the text,
/// and the reset code.
#[verifier::external_body]
fn paint_red(text: &str) -> (s: String)
    ensures
        s@ == red(text@),
{
    ansi_term::Colour::Red.paint(text).to_string()
}

/// `ansi_term::Colour::Red.underline().paint(text)`, written out: the escape code for
/// red underlined text, the text, and the reset code.
#[verifier::external_body]
fn paint_red_underlined(text: &str) -> (s: String)
    ensures
        s@ == red_underlined(text@),
{
    ansi_term::Colour::Red.underline().paint(text).to_string()
}

/// The character of the decimal digit `d`.
pub open spec fn digit(d: nat) -> char {
    (48 + d) as char
}

/// The decimal numeral of `n`, without leading zeros.
pub open spec fn decimal(n: nat) -> Seq<char>
    decreases n,
{
    if n < 10 {
        seq![digit(n)]
    } else {
        decimal(n / 10).push(digit(n % 10))
    }
}

fn digit_str(d: usize) -> (s: &'static str)
    requires
        d < 10,
    ensures
        s@ == seq![digit(d as nat)],
{
    proof {
        reveal_strlit("0");
        reveal_strlit("1");
        reveal_strlit("2");
        reveal_strlit("3");
        reveal_strlit("4");
        reveal_strlit("5");
        reveal_strlit("6");
        reveal_strlit("7");
        reveal_strlit("8");
        reveal_strlit("9");
    }
    if d == 0 {
        "0"
    } else if d == 1 {
        "1"
    } else if d == 2 {
        "2"
    } else if d == 3 {
        "3"
    } else if d == 4 {
        "4"
    } else if d == 5 {
        "5"
    } else if d == 6 {
        "6"
    } else if d == 7 {
        "7"
    } else if d == 8 {
        "8"
    } else {
        "9"
    }
}

/// The decimal numeral of `n`.
pub fn decimal_string(n: usize) -> (s: String)
    ensures
        s@ == decimal(n as nat),
    decreases n,
{
    if n < 10 {
        digit_str(n).to_owned()
    } else {
        let mut s = decimal_string(n / 10);
        s.append(digit_str(n % 10));
        s
    }
}

/// One shown line as a report prints it: a tab, its number, `: `, and its text with
/// the error's span red and underlined, then a line feed.
pub open spec fn rendered_line(l: (nat, Seq<char>, Option<(usize, usize)>)) -> Seq<char> {
    let text = match l.2 {
        None => l.1,
        Some((a, b)) => l.1.subrange(0, a as int) + red_underlined(l.1.subrange(a as int, b as int))
            + l.1.subrange(b as int, l.1.len() as int),
    };
    seq!['\t'] + decimal(l.0) + seq![':', ' '] + text + seq!['\n']
}

/// The shown lines as a report prints them, first to last.
pub open spec fn rendered_lines(lines: Seq<(nat, Seq<char>, Option<(usize, usize)>)>) -> Seq<char>
    decreases lines.len(),
{
    if lines.len() == 0 {
        Seq::empty()
    } else {
        rendered_lines(lines.drop_last()) + rendered_line(lines.last())
    }
}

/// A report as printed: the line number and the message in red, then the shown lines.
pub open spec fn rendered(message: Seq<char>, line_number: nat, lines: Seq<(nat, Seq<char>, Option<(usize, usize)>)>) -> Seq<char> {
    red(decimal(line_number)) + seq![':', ' '] + red(message) + seq!['\n'] + rendered_lines(lines)
}

/// Every marked span lies within its line, start before end.
pub open spec fn spans_fit(lines: Seq<(nat, Seq<char>, Option<(usize, usize)>)>) -> bool {
    forall|i: int|
        0 <= i < lines.len() ==> match #[trigger] lines[i].2 {
            Some((a, b)) => a <= b <= lines[i].1.len(),
            None => true,
        }
}

fn kind_name_of(k: TokenKind) -> (s: &'static str)
    ensures
        s == kind_name(k),
{
    match k {
        TokenKind::Error => "Error",
        TokenKind::EndOfFile => "EndOfFile",
        TokenKind::Trivia => "Trivia",
        TokenKind::SemiColon => "SemiColon",
        TokenKind::Identifier => "Identifier",
        TokenKind::Arrow => "Arrow",
        TokenKind::LeftParenthesis => "LeftParenthesis",
        TokenKind::RightParenthesis => "RightParenthesis",
        TokenKind::LeftBracket => "LeftBracket",
        TokenKind::RightBracket => "RightBracket",
        TokenKind::Quoted => "Quoted",
        TokenKind::Pipe => "Pipe",
        TokenKind::Star => "Star",
        TokenKind::Plus => "Plus",
    }
}

fn message_for(kind: &ParseErrorKind) -> (m: String)
    ensures
        m@ == message_of(kind@),
{
    match kind {
        ParseErrorKind::UnexpectedToken { expected, actual } => {
            let mut m = "Expected ".to_owned();
            m.append(kind_name_of(*expected));
            m.append(", but found ");
            m.append(kind_name_of(*actual));
            m.append(".");
            m
        },
        ParseErrorKind::MissingSyntax { message } => (*message).to_owned(),
        ParseErrorKind::DuplicateSymbol { symbol } => {
            let mut m = "Duplicate symbol ".to_owned();
            m.append(symbol.as_str());
            m.append(".");
            m
        },
        ParseErrorKind::UndefinedSymbol { symbol } => {
            let mut m = "Undefined symbol ".to_owned();
            m.append(symbol.as_str());
            m.append(".");
            m
        },
        ParseErrorKind::AmbiguousPipe => "An option of '|' refers to more than one rule.".to_owned(),
    }
}

impl ErrorReport {
    /// The report on `error` in `source`: its message, the number of the error's line
    /// (lines counted from 1), and the lines around it with the error's span marked.
    pub fn from_parse_error(error: &ParseError, source: &str) -> (r: ErrorReport)
        requires
            all_ascii(source@),
            source@.len() < usize::MAX,
            error.location.offset <= source@.len(),
            error.location.offset + error.location.length <= usize::MAX,
        ensures
            r.spec_message() == message_of(error@.1),
            r.spec_line_number() == newline_count(source@.take(error.location.offset as int)) + 1,
            r.shown() == shown_lines(
                source@,
                error.location.offset as int,
                error.location.offset + error.location.length,
            ),
            spans_fit(r.shown()),
    {
        let message = message_for(&error.kind);
        let from = error.location.offset;
        let to = error.location.length + from;
        let cs = chars_of(source);
        let ghost s = cs@;

        let mut preceding: usize = 0;
        let mut i: usize = 0;
        while i < from
            invariant
                s == cs@,
                i <= from <= s.len(),
                preceding == newline_count(s.take(i as int)),
                preceding <= i,
            decreases from - i,
        {
            assert(s.take(i + 1).drop_last() =~= s.take(i as int));
            if cs[i] == '\n' {
                preceding = preceding + 1;
            }
            i = i + 1;
        }
        let skip: usize = if preceding > 0 {
            preceding - 1
        } else {
            0
        };

        let ghost all = text_lines(s);
        let mut lines: Vec<ErrorReportLine> = Vec::new();
        let mut pos: usize = 0;
        let mut k: usize = 0;
        let mut acc: usize = 0;
        assert(all.subrange(0, all.len() as int) =~= all);
        while pos < cs.len() && (k < skip || k - skip < 3)
            invariant
                s == cs@,
                s == source@,
                s.len() < usize::MAX,
                all == text_lines(s),
                pos <= s.len(),
                k <= pos,
                k <= all.len(),
                all.subrange(k as int, all.len() as int) == lines_from(s, pos as int),
                acc <= pos,
                pos < s.len() ==> acc == line_offset(all, k as int),
                skip == first_shown(s, from as int),
                k <= skip + 3,
                from <= to,
                spans_fit(lines@.map_values(|l: ErrorReportLine| l@)),
                lines@.map_values(|l: ErrorReportLine| l@) == Seq::new(
                    if k > skip { (k - skip) as nat } else { 0nat },
                    |j: int| shown_line(all, skip + j, from as int, to as int),
                ),
            decreases s.len() - pos,
        {
            proof {
                lemma_first_newline_bounds(s, pos as int);
            }
            let mut n: usize = pos;
            while n < cs.len() && cs[n] != '\n'
                invariant
                    s == cs@,
                    pos <= n <= s.len(),
                    first_newline(s, pos as int) == first_newline(s, n as int),
                decreases s.len() - n,
            {
                n = n + 1;
            }
            let ghost rest = lines_from(s, pos as int);
            let ghost prev = lines@.map_values(|l: ErrorReportLine| l@);
            proof {
                if n < s.len() {
                    assert(rest == seq![strip_cr(s.subrange(pos as int, n as int))] + lines_from(s, n + 1));
                } else {
                    assert(rest == seq![s.subrange(pos as int, s.len() as int)]);
                }
                assert(all.subrange(k as int, all.len() as int).len() >= 1);
                assert(k < all.len());
                assert(all[k as int] == all.subrange(k as int, all.len() as int)[0]);
            }
            let end: usize = if n < cs.len() && n > pos && cs[n - 1] == '\r' {
                n - 1
            } else {
                n
            };
            let text = source.substring_char(pos, end).to_owned();
            assert(text@ == all[k as int]) by {
                if n < s.len() {
                    assert(strip_cr(s.subrange(pos as int, n as int)) =~= s.subrange(pos as int, end as int));
                }
            }
            let l0: usize = acc;
            let l1: usize = acc + (end - pos);
            let span: Option<(usize, usize)> = if l1 < from || l0 > to {
                None
            } else {
                let a: usize = if l0 > from { l0 } else { from };
                let b: usize = if l1 < to { l1 } else { to };
                Some((a - l0, b - l0))
            };
            if k >= skip {
                let line = ErrorReportLine { line_number: k + 1, line: text, error_span: span };
                assert(text@.len() == end - pos);
                assert(line@ == shown_line(all, k as int, from as int, to as int));
                lines.push(line);
                assert(lines@.map_values(|l: ErrorReportLine| l@) =~= prev.push(
                    shown_line(all, k as int, from as int, to as int),
                ));
            }
            proof {
                assert(all.subrange(k + 1, all.len() as int) =~= all.subrange(k as int, all.len() as int).drop_first());
            }
            if n < cs.len() {
                acc = l1 + 1;
                pos = n + 1;
            } else {
                pos = n;
            }
            k = k + 1;
            assert(lines@.map_values(|l: ErrorReportLine| l@) =~= Seq::new(
                if k > skip { (k - skip) as nat } else { 0nat },
                |j: int| shown_line(all, skip + j, from as int, to as int),
            ));
        }
        ErrorReport { message, line_number: preceding + 1, lines }
    }

    /// The report as a terminal shows it: the line number and the message in red, then
    /// each shown line after a tab and its number, with the error's span red and
    /// underlined.
    pub fn render(&self) -> (s: String)
        requires
            spans_fit(self.shown()),
        ensures
            s@ == rendered(self.spec_message(), self.spec_line_number(), self.shown()),
    {
        proof {
            reveal_strlit(": ");
            reveal_strlit("\n");
            reveal_strlit("\t");
        }
        let number = decimal_string(self.line_number);
        let mut s = paint_red(number.as_str());
        s.append(": ");
        let message = paint_red(self.message.as_str());
        s.append(message.as_str());
        s.append("\n");
        let ghost shown = self.shown();
        let ghost header = s@;
        let mut i: usize = 0;
        while i < self.lines.len()
            invariant
                i <= self.lines@.len(),
                shown == self.shown(),
                shown == self.lines@.map_values(|l: ErrorReportLine| l@),
                spans_fit(shown),
                header == red(decimal(self.spec_line_number())) + seq![':', ' '] + red(self.spec_message())
                    + seq!['\n'],
                s@ == header + rendered_lines(shown.take(i as int)),
            decreases self.lines@.len() - i,
        {
            proof {
                reveal_strlit(": ");
                reveal_strlit("\n");
                reveal_strlit("\t");
            }
            let line = &self.lines[i];
            let ghost before = s@;
            s.append("\t");
            let number = decimal_string(line.line_number);
            s.append(number.as_str());
            s.append(": ");
            let text = line.line.as_str();
            let ghost prefix = s@;
            assert(prefix =~= before + seq!['\t'] + decimal(line@.0) + seq![':', ' ']);
            assert(shown[i as int] == line@);
            assert(match shown[i as int].2 {
                Some((a, b)) => a <= b <= shown[i as int].1.len(),
                None => true,
            });
            match line.error_span {
                None => {
                    s.append(text);
                },
                Some((a, b)) => {
                    let n = text.unicode_len();
                    s.append(text.substring_char(0, a));
                    let marked = paint_red_underlined(text.substring_char(a, b));
                    s.append(marked.as_str());
                    s.append(text.substring_char(b, n));
                },
            }
            proof {
                let part = match line@.2 {
                    None => line@.1,
                    Some((a, b)) => line@.1.subrange(0, a as int) + red_underlined(
                        line@.1.subrange(a as int, b as int),
                    ) + line@.1.subrange(b as int, line@.1.len() as int),
                };
                assert(s@ =~= prefix + part);
            }
            s.append("\n");
            proof {
                assert(s@ =~= before + rendered_line(line@));
                assert(shown.take(i + 1).drop_last() =~= shown.take(i as int));
                assert(shown.take(i + 1).last() == shown[i as int]);
                assert(s@ =~= header + rendered_lines(shown.take(i + 1)));
            }
            i = i + 1;
        }
        proof {
            assert(shown.take(i as int) =~= shown);
        }
        s
    }
}

} // verus!
