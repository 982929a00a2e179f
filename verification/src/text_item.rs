//! Text as a layout item: each line of the text is set as one glyph run, moved down to
//! its line; the text is as wide as its widest line and as high as its lines together.
use vstd::prelude::*;
use crate::layout::Dimensions;
use crate::typesetting::{append_fits, appended, GlyphRun, PixelVector, RunModel, TypeSet, TypeSetModel};

verus! {

/// Where the line that starts at `start` ends: at the first newline from `start`, or
/// at the end of the text.
pub open spec fn line_end(t: Seq<char>, start: int) -> int
    decreases t.len() - start,
{
    if start < 0 || start >= t.len() || t[start] == '\n' {
        start
    } else {
        line_end(t, start + 1)
    }
}

/// The lines of `t` from `start`, as `str::lines` gives them: split at each newline, a
/// carriage return before a newline dropped, and no empty line after a final newline.
pub open spec fn lines_from(t: Seq<char>, start: int) -> Seq<Seq<char>>
    decreases t.len() - start,
{
    if start < 0 || start >= t.len() {
        Seq::empty()
    } else {
        let e = line_end(t, start);
        let raw = t.subrange(start, e);
        let line = if e < t.len() && raw.len() > 0 && raw.last() == '\r' {
            raw.drop_last()
        } else {
            raw
        };
        proof {
            lemma_line_end(t, start);
        }
        if start <= e < t.len() {
            seq![line] + lines_from(t, e + 1)
        } else {
            seq![line]
        }
    }
}

/// The lines of `t`.
pub open spec fn text_lines(t: Seq<char>) -> Seq<Seq<char>> {
    lines_from(t, 0)
}

/// The line that starts at `start` ends within the text, at a newline or at its end,
/// and holds no newline.
pub proof fn lemma_line_end(t: Seq<char>, start: int)
    requires
        0 <= start <= t.len(),
    ensures
        start <= line_end(t, start) <= t.len(),
        line_end(t, start) < t.len() ==> t[line_end(t, start)] == '\n',
        forall|k: int| start <= k < line_end(t, start) ==> t[k] != '\n',
    decreases t.len() - start,
{
    if start < t.len() && t[start] != '\n' {
        lemma_line_end(t, start + 1);
    }
}

/// A run just started in the type set `ts`.
pub open spec fn fresh_run(ts: TypeSetModel) -> RunModel {
    RunModel {
        type_set: ts,
        line_width: 0,
        height: 0,
        offset: PixelVector { x: 0, y: -ts.ascent as i32 },
        glyphs: Seq::empty(),
    }
}

/// The run of the `index`-th line, `line`: its glyphs set on a fresh run, moved down to
/// line `index`.
pub open spec fn line_run(ts: TypeSetModel, line: Seq<char>, index: int) -> RunModel {
    RunModel {
        offset: PixelVector { x: 0, y: (-ts.ascent - index * ts.line_height()) as i32 },
        ..appended(fresh_run(ts), line)
    }
}

/// The height of every line's run: the line height, as the first text appended sets it.
pub open spec fn run_height(ts: TypeSetModel) -> int {
    ts.line_height() as i32 as int
}

/// The width of the widest of the first `n` lines (at least zero).
pub open spec fn widest(ts: TypeSetModel, lines: Seq<Seq<char>>, n: int) -> int
    decreases n,
{
    if n <= 0 {
        0
    } else {
        let w = appended(fresh_run(ts), lines[n - 1]).line_width as int;
        let rest = widest(ts, lines, n - 1);
        if w > rest {
            w
        } else {
            rest
        }
    }
}

/// Setting every line of `t` in `ts` keeps within the integer types: every line can be
/// appended to a fresh run and moved down to its line.
pub open spec fn text_fits(ts: TypeSetModel, t: Seq<char>) -> bool {
    let lines = text_lines(t);
    &&& ts.wf()
    &&& ts.ascent > i32::MIN
    &&& i32::MIN <= ts.ascent - ts.descent <= i32::MAX
    &&& i32::MIN <= ts.line_height() <= i32::MAX
    &&& lines.len() <= i32::MAX
    &&& forall|i: int|
        0 <= i < lines.len() ==> {
            &&& append_fits(fresh_run(ts), #[trigger] lines[i])
            &&& i32::MIN <= i * ts.line_height() <= i32::MAX
            &&& i32::MIN <= -ts.ascent - i * ts.line_height() <= i32::MAX
        }
}

/// The line of `text` that starts at `start`, and where the next line starts.
fn next_line<'a>(text: &'a str, start: usize) -> (r: (&'a str, usize))
    requires
        start < text@.len(),
    ensures
        start < r.1 <= text@.len(),
        lines_from(text@, start as int) == seq![r.0@] + lines_from(text@, r.1 as int),
{
    let ghost t = text@;
    let n = text.unicode_len();
    proof {
        lemma_line_end(t, start as int);
    }
    let mut end: usize = start;
    while end < n && text.get_char(end) != '\n'
        invariant
            start <= end <= n,
            n == t.len(),
            text@ == t,
            line_end(t, start as int) == line_end(t, end as int),
        decreases n - end,
    {
        end = end + 1;
    }
    let ghost e = line_end(t, start as int);
    assert(end as int == e);
    let line_stop = if end < n && end > start && text.get_char(end - 1) == '\r' {
        end - 1
    } else {
        end
    };
    let line = text.substring_char(start, line_stop);
    let next = if end < n {
        end + 1
    } else {
        end
    };
    proof {
        let raw = t.subrange(start as int, e);
        if e < t.len() && raw.len() > 0 && raw.last() == '\r' {
            assert(line@ =~= raw.drop_last());
        } else {
            assert(line@ =~= raw);
        }
        if e >= t.len() {
            assert(lines_from(t, next as int) == Seq::<Seq<char>>::empty());
            assert(seq![line@] + lines_from(t, next as int) =~= seq![line@]);
        }
    }
    (line, next)
}

/// A text to lay out, set in a type set.
pub struct Text {
    text: String,
    type_set: TypeSet,
}

impl Text {
    /// The text `text`, set in `type_set`.
    pub fn new(text: String, type_set: TypeSet) -> (t: Text)
        ensures
            t.text() == text@,
            t.type_set() == type_set@,
    {
        Text { text, type_set }
    }

    /// The characters of the text.
    pub closed spec fn text(&self) -> Seq<char> {
        self.text@
    }

    /// The type set of the text.
    pub closed spec fn type_set(&self) -> TypeSetModel {
        self.type_set@
    }

    /// Lays the text out: one glyph run per line, each moved down to its line, and the
    /// size of the text, as wide as its widest line and as high as its lines together.
    pub fn layout(&self) -> (r: (Vec<GlyphRun>, Dimensions))
        requires
            text_fits(self.type_set(), self.text()),
        ensures
            r.0@.map_values(|run: GlyphRun| run@) == Seq::new(
                text_lines(self.text()).len(),
                |i: int| line_run(self.type_set(), text_lines(self.text())[i], i),
            ),
            r.1 == (Dimensions {
                width: widest(self.type_set(), text_lines(self.text()), text_lines(self.text()).len() as int) as i64,
                height: (text_lines(self.text()).len() * run_height(self.type_set())) as i64,
            }),
    {
        let ghost ts = self.type_set@;
        let ghost t = self.text@;
        let ghost lines = text_lines(t);
        let ghost target = Seq::new(lines.len(), |i: int| line_run(ts, lines[i], i));
        let text = self.text.as_str();
        let n = text.unicode_len();
        let mut runs: Vec<GlyphRun> = Vec::new();
        let mut used_width: i64 = 0;
        let mut used_height: i64 = 0;
        let mut start: usize = 0;
        let mut index: usize = 0;
        proof {
            assert(lines_from(t, 0) == lines.skip(0));
        }
        while start < n
            invariant
                n == t.len(),
                text@ == t,
                ts == self.type_set@,
                t == self.text@,
                lines == text_lines(t),
                target == Seq::new(lines.len(), |i: int| line_run(ts, lines[i], i)),
                text_fits(ts, t),
                start <= n,
                index <= lines.len(),
                lines_from(t, start as int) == lines.skip(index as int),
                runs@.map_values(|run: GlyphRun| run@) == target.take(index as int),
                used_width == widest(ts, lines, index as int),
                used_height == index * run_height(ts),
            decreases n - start,
        {
            let (line, next) = next_line(text, start);
            proof {
                assert(lines.skip(index as int) == seq![line@] + lines_from(t, next as int));
                assert(lines.skip(index as int)[0] == line@);
                assert(lines.skip(index as int).len() > 0);
                assert(lines[index as int] == line@);
                assert(lines.skip(index as int).drop_first() =~= lines.skip(index + 1));
                assert(lines_from(t, next as int) == lines.skip(index + 1));
                assert(append_fits(fresh_run(ts), lines[index as int]));
            }
            let mut run = GlyphRun::new(self.type_set.clone());
            run.append_text(line);
            run.set_line_offset(index as i32);
            proof {
                assert(run@ == line_run(ts, lines[index as int], index as int));
                assert(run@.height == run_height(ts));
                assert(-1 * 0x8000_0000 <= run_height(ts) < 0x8000_0000);
                assert(0 <= index < 0x8000_0000);
                assert(-0x4000_0000_0000_0000 <= (index + 1) * run_height(ts) <= 0x4000_0000_0000_0000)
                    by (nonlinear_arith)
                    requires
                        -1 * 0x8000_0000 <= run_height(ts) < 0x8000_0000,
                        0 <= index < 0x8000_0000,
                ;
                assert((index + 1) * run_height(ts) == index * run_height(ts) + run_height(ts))
                    by (nonlinear_arith);
            }
            let width = run.width() as i64;
            if width > used_width {
                used_width = width;
            }
            used_height = used_height + run.height() as i64;
            let ghost before = runs@;
            runs.push(run);
            proof {
                assert(runs@.map_values(|r: GlyphRun| r@) =~= before.map_values(|r: GlyphRun| r@).push(
                    target[index as int],
                ));
                assert(target.take(index + 1) =~= target.take(index as int).push(target[index as int]));
            }
            index = index + 1;
            start = next;
        }
        proof {
            assert(lines_from(t, start as int) == Seq::<Seq<char>>::empty());
            assert(lines.skip(index as int).len() == 0);
            assert(target.take(index as int) =~= target);
        }
        (runs, Dimensions { width: used_width, height: used_height })
    }
}

} // verus!
