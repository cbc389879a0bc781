//! The text of the console: rows of bounded length, bounded in number and in bytes.

use super::text::{bounded_prefix, fit, lemma_fit};
use super::types::{log_views, Level, LogLine, LogView};
use crate::text::{lemma_utf8_len_concat, utf8_len};
use std::collections::VecDeque;
use vstd::prelude::*;
use vstd::string::StrSliceExecFns;

verus! {

pub const MAX_ROWS: usize = 2_000;

/// What all rows may hold together.
pub const MAX_TEXT_BYTES: usize = 524_288;

pub const MAX_LINE_BYTES: usize = 4_096;

pub const MAX_TIMESTAMP_BYTES: usize = 32;

/// The name of a level, padded to five characters.
pub open spec fn level_text(level: Level) -> Seq<char> {
    match level {
        Level::Error => "ERROR"@,
        Level::Warn => "WARN "@,
        Level::Info => "INFO "@,
        Level::Debug => "DEBUG"@,
        Level::Trace => "TRACE"@,
    }
}

/// The name of a level, padded to five characters.
pub fn level_name(level: Level) -> (r: &'static str)
    ensures
        r@ == level_text(level),
        utf8_len(r@) == 5,
{
    proof {
        reveal_strlit("ERROR");
        reveal_strlit("WARN ");
        reveal_strlit("INFO ");
        reveal_strlit("DEBUG");
        reveal_strlit("TRACE");
        reveal_with_fuel(utf8_len, 6);
    }
    match level {
        Level::Error => "ERROR",
        Level::Warn => "WARN ",
        Level::Info => "INFO ",
        Level::Debug => "DEBUG",
        Level::Trace => "TRACE",
    }
}

/// A row of the console. Its text is the timestamp, the level and the message, and the
/// ends say where the first two stop, in bytes.
pub struct ConsoleLine {
    pub text: String,
    pub timestamp_end: usize,
    pub level_end: usize,
    pub level: Level,
    pub chars: usize,
}

pub struct ConsoleLineView {
    pub text: Seq<char>,
    pub timestamp_end: usize,
    pub level_end: usize,
    pub level: Level,
    pub chars: usize,
}

impl View for ConsoleLine {
    type V = ConsoleLineView;

    open spec fn view(&self) -> ConsoleLineView {
        ConsoleLineView {
            text: self.text@,
            timestamp_end: self.timestamp_end,
            level_end: self.level_end,
            level: self.level,
            chars: self.chars,
        }
    }
}

/// The text of a row.
pub open spec fn row_text(l: LogView) -> Seq<char> {
    fit(l.timestamp, MAX_TIMESTAMP_BYTES as nat) + seq![' '] + level_text(l.level) + seq![' ']
        + fit(l.text, MAX_LINE_BYTES as nat) + seq!['\n']
}

/// The row of a log line.
pub open spec fn row(l: LogView) -> ConsoleLineView {
    let stamp = utf8_len(fit(l.timestamp, MAX_TIMESTAMP_BYTES as nat));
    ConsoleLineView {
        text: row_text(l),
        timestamp_end: (stamp + 1) as usize,
        level_end: (stamp + 7) as usize,
        level: l.level,
        chars: row_text(l).len() as usize,
    }
}

/// The longest row, in bytes.
pub const MAX_ROW_BYTES: usize = 4_136;

proof fn lemma_row_bytes(l: LogView)
    ensures
        utf8_len(row_text(l)) <= MAX_ROW_BYTES,
        row_text(l).len() <= MAX_ROW_BYTES,
{
    let a = fit(l.timestamp, MAX_TIMESTAMP_BYTES as nat);
    let b = fit(l.text, MAX_LINE_BYTES as nat);
    lemma_fit(l.timestamp, MAX_TIMESTAMP_BYTES as nat);
    lemma_fit(l.text, MAX_LINE_BYTES as nat);
    reveal_strlit("ERROR");
    reveal_strlit("WARN ");
    reveal_strlit("INFO ");
    reveal_strlit("DEBUG");
    reveal_strlit("TRACE");
    reveal_with_fuel(utf8_len, 6);
    assert(utf8_len(seq![' ']) == 1);
    assert(utf8_len(seq!['\n']) == 1);
    assert(utf8_len(level_text(l.level)) == 5);
    lemma_utf8_len_concat(a, seq![' ']);
    lemma_utf8_len_concat(a + seq![' '], level_text(l.level));
    lemma_utf8_len_concat(a + seq![' '] + level_text(l.level), seq![' ']);
    lemma_utf8_len_concat(a + seq![' '] + level_text(l.level) + seq![' '], b);
    lemma_utf8_len_concat(a + seq![' '] + level_text(l.level) + seq![' '] + b, seq!['\n']);
    crate::text::lemma_utf8_len_is_encoded_len(row_text(l));
}

impl ConsoleLine {
    /// The row of a log line.
    pub fn from_log(line: &LogLine) -> (r: Self)
        ensures
            r@ == row(line@),
    {
        let timestamp = bounded_prefix(line.timestamp.as_str(), MAX_TIMESTAMP_BYTES);
        let message = bounded_prefix(line.text.as_str(), MAX_LINE_BYTES);
        let stamp: usize = timestamp.as_str().as_bytes().len();
        let mut text = timestamp;
        text.push(' ');
        text.append(level_name(line.level));
        text.push(' ');
        text.append(message.as_str());
        text.push('\n');
        proof {
            crate::text::lemma_utf8_len_is_encoded_len(timestamp@);
            lemma_fit(line.timestamp@, MAX_TIMESTAMP_BYTES as nat);
            lemma_row_bytes(line@);
            assert(text@ =~= row_text(line@));
        }
        let chars: usize = text.as_str().unicode_len();
        ConsoleLine {
            text,
            timestamp_end: stamp + 1,
            level_end: stamp + 7,
            level: line.level,
            chars,
        }
    }
}

/// The bytes of several rows.
pub open spec fn total_bytes(lines: Seq<ConsoleLineView>) -> nat
    decreases lines.len(),
{
    if lines.len() == 0 {
        0
    } else {
        total_bytes(lines.drop_last()) + utf8_len(lines.last().text)
    }
}

/// The characters of several rows.
pub open spec fn total_chars(lines: Seq<ConsoleLineView>) -> nat
    decreases lines.len(),
{
    if lines.len() == 0 {
        0
    } else {
        total_chars(lines.drop_last()) + lines.last().chars as nat
    }
}

/// Whether rows are within the limits.
pub open spec fn within_limits(lines: Seq<ConsoleLineView>) -> bool {
    lines.len() <= MAX_ROWS && total_bytes(lines) <= MAX_TEXT_BYTES
}

/// How many of the oldest rows have to go.
pub open spec fn excess(lines: Seq<ConsoleLineView>) -> nat
    decreases lines.len(),
{
    if lines.len() == 0 || within_limits(lines) {
        0
    } else {
        1 + excess(lines.drop_first())
    }
}

proof fn lemma_excess(lines: Seq<ConsoleLineView>)
    ensures
        excess(lines) <= lines.len(),
        within_limits(lines.skip(excess(lines) as int)),
        forall|d: int| 0 <= d < excess(lines) ==> !within_limits(#[trigger] lines.skip(d)),
    decreases lines.len(),
{
    if lines.len() == 0 || within_limits(lines) {
        assert(lines.skip(0) =~= lines);
    } else {
        let rest = lines.drop_first();
        lemma_excess(rest);
        let e = excess(rest) as int;
        assert(lines.skip(e + 1) =~= rest.skip(e));
        assert forall|d: int| 0 <= d < excess(lines) implies !within_limits(
            #[trigger] lines.skip(d),
        ) by {
            if d == 0 {
                assert(lines.skip(0) =~= lines);
            } else {
                assert(lines.skip(d) =~= rest.skip(d - 1));
            }
        }
    }
}

proof fn lemma_total_split(lines: Seq<ConsoleLineView>)
    requires
        lines.len() > 0,
    ensures
        total_bytes(lines) == utf8_len(lines[0].text) + total_bytes(lines.drop_first()),
        total_chars(lines) == lines[0].chars + total_chars(lines.drop_first()),
    decreases lines.len(),
{
    if lines.len() > 1 {
        lemma_total_split(lines.drop_last());
        assert(lines.drop_last().drop_first() =~= lines.drop_first().drop_last());
        assert(lines.drop_first().last() == lines.last());
    } else {
        assert(lines.drop_last() =~= Seq::<ConsoleLineView>::empty());
        assert(lines.drop_first() =~= Seq::<ConsoleLineView>::empty());
    }
}

/// The rows of the console, and how much was trimmed since that was last asked.
pub struct ConsoleDocument {
    pub lines: VecDeque<ConsoleLine>,
    pub bytes: usize,
    pub dirty: bool,
    pub trimmed_chars: usize,
    pub trimmed_rows: usize,
}

pub struct DocumentView {
    pub lines: Seq<ConsoleLineView>,
    /// The bytes of all rows.
    pub bytes: nat,
    pub dirty: bool,
    pub trimmed_chars: nat,
    pub trimmed_rows: nat,
}

/// The rows that a list stands for.
pub open spec fn line_views(lines: Seq<ConsoleLine>) -> Seq<ConsoleLineView> {
    lines.map_values(|l: ConsoleLine| l@)
}

impl View for ConsoleDocument {
    type V = DocumentView;

    open spec fn view(&self) -> DocumentView {
        DocumentView {
            lines: line_views(self.lines@),
            bytes: self.bytes as nat,
            dirty: self.dirty,
            trimmed_chars: self.trimmed_chars as nat,
            trimmed_rows: self.trimmed_rows as nat,
        }
    }
}

/// The document after one more row: the oldest rows go until the limits hold.
pub open spec fn appended(d: DocumentView, line: LogView) -> DocumentView {
    let all = d.lines.push(row(line));
    let gone = excess(all) as int;
    DocumentView {
        lines: all.skip(gone),
        bytes: total_bytes(all.skip(gone)),
        dirty: true,
        trimmed_chars: d.trimmed_chars + total_chars(all.take(gone)),
        trimmed_rows: d.trimmed_rows + gone as nat,
    }
}

/// The document after several more rows.
pub open spec fn appended_all(d: DocumentView, lines: Seq<LogView>) -> DocumentView
    decreases lines.len(),
{
    if lines.len() == 0 {
        d
    } else {
        appended(appended_all(d, lines.drop_last()), lines.last())
    }
}

impl ConsoleDocument {
    /// The byte count is that of the rows, which are within the limits.
    pub open spec fn wf(self) -> bool {
        &&& self@.bytes == total_bytes(self@.lines)
        &&& within_limits(self@.lines)
    }

    /// Drops the oldest row and counts it as trimmed.
    fn drop_oldest(&mut self)
        requires
            old(self).lines@.len() > 0,
            old(self).bytes == total_bytes(old(self)@.lines),
            old(self).trimmed_chars + old(self).lines@[0].chars <= usize::MAX,
            old(self).trimmed_rows < usize::MAX,
        ensures
            final(self).bytes == total_bytes(final(self)@.lines),
            final(self)@ == (DocumentView {
                lines: old(self)@.lines.drop_first(),
                bytes: total_bytes(old(self)@.lines.drop_first()),
                trimmed_chars: old(self)@.trimmed_chars + old(self)@.lines[0].chars as nat,
                trimmed_rows: old(self)@.trimmed_rows + 1,
                ..old(self)@
            }),
    {
        proof {
            lemma_total_split(self@.lines);
        }
        if let Some(line) = self.lines.pop_front() {
            let size: usize = line.text.as_str().as_bytes().len();
            proof {
                crate::text::lemma_utf8_len_is_encoded_len(line.text@);
                assert(line@ == old(self)@.lines[0]);
            }
            self.bytes = self.bytes - size;
            self.trimmed_chars = self.trimmed_chars + line.chars;
            self.trimmed_rows = self.trimmed_rows + 1;
            assert(line_views(self.lines@) =~= old(self)@.lines.drop_first());
        }
    }

    /// Appends one row.
    fn append_line(&mut self, line: &LogLine)
        requires
            old(self).wf(),
            old(self).trimmed_chars + total_chars(old(self)@.lines) + MAX_ROW_BYTES <= usize::MAX,
            old(self).trimmed_rows + old(self).lines@.len() + 1 <= usize::MAX,
        ensures
            final(self).wf(),
            final(self)@ == appended(old(self)@, line@),
            final(self).trimmed_chars + total_chars(final(self)@.lines) == old(self).trimmed_chars
                + total_chars(old(self)@.lines) + row(line@).chars,
            final(self).trimmed_rows + final(self).lines@.len() == old(self).trimmed_rows + old(
                self,
            ).lines@.len() + 1,
    {
        let ghost start = self@;
        let console_line = ConsoleLine::from_log(line);
        let size: usize = console_line.text.as_str().as_bytes().len();
        let ghost all = start.lines.push(console_line@);
        proof {
            crate::text::lemma_utf8_len_is_encoded_len(console_line.text@);
            lemma_row_bytes(line@);
            assert(all.drop_last() =~= start.lines);
            lemma_excess(all);
        }
        self.bytes = self.bytes + size;
        self.lines.push_back(console_line);
        self.dirty = true;
        let ghost mut gone: int = 0;
        proof {
            assert(line_views(self.lines@) =~= all);
            assert(all.skip(0) =~= all);
            assert(all.take(0) =~= Seq::<ConsoleLineView>::empty());
        }
        while self.lines.len() > MAX_ROWS || self.bytes > MAX_TEXT_BYTES
            invariant
                0 <= gone <= excess(all) <= all.len(),
                self@ == (DocumentView {
                    lines: all.skip(gone),
                    bytes: total_bytes(all.skip(gone)),
                    dirty: true,
                    trimmed_chars: start.trimmed_chars + total_chars(all.take(gone)),
                    trimmed_rows: start.trimmed_rows + gone as nat,
                }),
                self.bytes == total_bytes(self@.lines),
                total_chars(all.take(gone)) + total_chars(all.skip(gone)) == total_chars(all),
                start.trimmed_chars + total_chars(all) <= usize::MAX,
                start.trimmed_rows + all.len() <= usize::MAX,
                within_limits(all.skip(excess(all) as int)),
                forall|d: int| 0 <= d < excess(all) ==> !within_limits(#[trigger] all.skip(d)),
            decreases all.len() - gone,
        {
            proof {
                assert(self@.lines.len() == self.lines@.len());
                assert(!within_limits(all.skip(gone)));
                assert(gone < excess(all));
                let rest = all.skip(gone);
                lemma_total_split(rest);
                assert(rest[0] == all[gone]);
                assert(rest[0] == self.lines@[0]@);
                assert(rest.drop_first() =~= all.skip(gone + 1));
                assert(all.take(gone + 1).drop_last() =~= all.take(gone));
            }
            self.drop_oldest();
            proof {
                gone = gone + 1;
            }
        }
        proof {
            assert(self@.lines.len() == self.lines@.len());
            assert(within_limits(all.skip(gone)));
            assert(gone == excess(all));
        }
    }

    /// Appends rows; the oldest go where a limit is reached.
    pub fn append(&mut self, lines: &Vec<LogLine>)
        requires
            old(self).wf(),
            old(self).trimmed_chars + total_chars(old(self)@.lines) + MAX_ROW_BYTES * lines@.len()
                <= usize::MAX,
            old(self).trimmed_rows + old(self).lines@.len() + lines@.len() <= usize::MAX,
        ensures
            final(self).wf(),
            final(self)@ == appended_all(old(self)@, log_views(lines@)),
    {
        let ghost all = log_views(lines@);
        let ghost start = self@;
        let mut i: usize = 0;
        assert(all.take(0) =~= Seq::<LogView>::empty());
        while i < lines.len()
            invariant
                i <= lines@.len(),
                all == log_views(lines@),
                self.wf(),
                self@ == appended_all(start, all.take(i as int)),
                self.trimmed_chars + total_chars(self@.lines) + MAX_ROW_BYTES * (lines@.len() - i)
                    <= usize::MAX,
                self.trimmed_rows + self.lines@.len() + (lines@.len() - i) <= usize::MAX,
            decreases lines@.len() - i,
        {
            proof {
                assert(all.take(i + 1).drop_last() =~= all.take(i as int));
                assert(all.take(i + 1).last() == lines@[i as int]@);
                lemma_row_bytes(lines@[i as int]@);
            }
            self.append_line(&lines[i]);
            i = i + 1;
        }
        assert(all.take(i as int) =~= all);
    }

    /// How many characters and rows were trimmed since this was last asked.
    pub fn take_trimmed(&mut self) -> (r: (usize, usize))
        ensures
            r == (old(self).trimmed_chars, old(self).trimmed_rows),
            final(self)@ == (DocumentView { trimmed_chars: 0, trimmed_rows: 0, ..old(self)@ }),
            old(self).wf() ==> final(self).wf(),
    {
        let r = (self.trimmed_chars, self.trimmed_rows);
        self.trimmed_chars = 0;
        self.trimmed_rows = 0;
        r
    }

    /// Whether the rows changed since this was last asked.
    pub fn take_dirty(&mut self) -> (r: bool)
        ensures
            r == old(self).dirty,
            final(self)@ == (DocumentView { dirty: false, ..old(self)@ }),
            old(self).wf() ==> final(self).wf(),
    {
        let r = self.dirty;
        self.dirty = false;
        r
    }
}

impl Default for ConsoleDocument {
    fn default() -> (r: Self)
        ensures
            r.wf(),
            r@ == (DocumentView {
                lines: Seq::empty(),
                bytes: 0,
                dirty: false,
                trimmed_chars: 0,
                trimmed_rows: 0,
            }),
    {
        let r = ConsoleDocument {
            lines: VecDeque::new(),
            bytes: 0,
            dirty: false,
            trimmed_chars: 0,
            trimmed_rows: 0,
        };
        assert(line_views(r.lines@) =~= Seq::<ConsoleLineView>::empty());
        r
    }
}

/// Where a selection lies after characters left at the document's front.
pub open spec fn shifted(at: int, trimmed: int) -> int {
    if at >= trimmed {
        at - trimmed
    } else {
        0
    }
}

/// Moves a selection along with its text after characters left at the document's front.
pub fn shift_selection(selection: (usize, usize), trimmed_chars: usize) -> (r: (usize, usize))
    ensures
        r.0 == shifted(selection.0 as int, trimmed_chars as int),
        r.1 == shifted(selection.1 as int, trimmed_chars as int),
{
    (
        if selection.0 >= trimmed_chars {
            selection.0 - trimmed_chars
        } else {
            0
        },
        if selection.1 >= trimmed_chars {
            selection.1 - trimmed_chars
        } else {
            0
        },
    )
}

/// The text of all rows.
pub open spec fn document_text(lines: Seq<ConsoleLineView>) -> Seq<char>
    decreases lines.len(),
{
    if lines.len() == 0 {
        Seq::empty()
    } else {
        document_text(lines.drop_last()) + lines.last().text
    }
}

/// The text of all rows, of log lines.
pub open spec fn log_text(lines: Seq<LogView>) -> Seq<char>
    decreases lines.len(),
{
    if lines.len() == 0 {
        Seq::empty()
    } else {
        log_text(lines.drop_last()) + row_text(lines.last())
    }
}

/// Whether every row knows how many characters it has.
pub open spec fn counted(lines: Seq<ConsoleLineView>) -> bool {
    forall|i: int| 0 <= i < lines.len() ==> (#[trigger] lines[i]).chars == lines[i].text.len()
}

proof fn lemma_text_len(lines: Seq<ConsoleLineView>)
    requires
        counted(lines),
    ensures
        document_text(lines).len() == total_chars(lines),
    decreases lines.len(),
{
    if lines.len() > 0 {
        assert(counted(lines.drop_last()));
        lemma_text_len(lines.drop_last());
    }
}

proof fn lemma_text_split(lines: Seq<ConsoleLineView>, n: int)
    requires
        0 <= n <= lines.len(),
    ensures
        document_text(lines) == document_text(lines.take(n)) + document_text(lines.skip(n)),
    decreases lines.len(),
{
    if n == lines.len() {
        assert(lines.take(n) =~= lines);
        assert(document_text(lines.skip(n)) =~= Seq::<char>::empty());
        assert(document_text(lines) + Seq::<char>::empty() =~= document_text(lines));
    } else {
        let rest = lines.drop_last();
        lemma_text_split(rest, n);
        assert(rest.take(n) =~= lines.take(n));
        assert(lines.skip(n).drop_last() =~= rest.skip(n));
        assert(lines.skip(n).last() == lines.last());
        assert((document_text(rest.take(n)) + document_text(rest.skip(n))) + lines.last().text
            =~= document_text(rest.take(n)) + (document_text(rest.skip(n)) + lines.last().text));
    }
}

/// What an append makes of the text: the new row is at its end, and the trimmed characters
/// are gone from its front.
proof fn lemma_appended_text(d: DocumentView, line: LogView)
    requires
        counted(d.lines),
    ensures
        counted(appended(d, line).lines),
        d.trimmed_chars <= appended(d, line).trimmed_chars,
        appended(d, line).trimmed_chars - d.trimmed_chars <= (document_text(d.lines) + row_text(
            line,
        )).len(),
        document_text(appended(d, line).lines) == (document_text(d.lines) + row_text(line)).skip(
            appended(d, line).trimmed_chars - d.trimmed_chars,
        ),
{
    let all = d.lines.push(row(line));
    let gone = excess(all) as int;
    lemma_excess(all);
    lemma_row_bytes(line);
    assert(counted(all));
    assert(counted(all.take(gone)));
    assert(all.drop_last() =~= d.lines);
    lemma_text_split(all, gone);
    lemma_text_len(all.take(gone));
    assert(document_text(all) == document_text(d.lines) + row_text(line));
    assert(document_text(all.skip(gone)) =~= document_text(all).skip(
        total_chars(all.take(gone)) as int,
    ));
}

/// The same for several rows.
proof fn lemma_appended_all_text(d: DocumentView, lines: Seq<LogView>)
    requires
        counted(d.lines),
    ensures
        counted(appended_all(d, lines).lines),
        d.trimmed_chars <= appended_all(d, lines).trimmed_chars,
        appended_all(d, lines).trimmed_chars - d.trimmed_chars <= (document_text(d.lines)
            + log_text(lines)).len(),
        document_text(appended_all(d, lines).lines) == (document_text(d.lines) + log_text(
            lines,
        )).skip(appended_all(d, lines).trimmed_chars - d.trimmed_chars),
    decreases lines.len(),
{
    let before = document_text(d.lines);
    if lines.len() == 0 {
        assert((before + log_text(lines)).skip(0) =~= before);
    } else {
        let rest = lines.drop_last();
        let middle = appended_all(d, rest);
        lemma_appended_all_text(d, rest);
        lemma_appended_text(middle, lines.last());
        let t = middle.trimmed_chars - d.trimmed_chars;
        let whole = before + log_text(rest);
        assert(before + log_text(lines) =~= whole + row_text(lines.last()));
        assert(whole.skip(t) + row_text(lines.last()) =~= (whole + row_text(lines.last())).skip(t));
        let u = appended_all(d, lines).trimmed_chars - middle.trimmed_chars;
        assert((whole + row_text(lines.last())).skip(t).skip(u) =~= (whole + row_text(
            lines.last(),
        )).skip(t + u));
    }
}

/// A selection keeps its text while rows are appended and old rows go, as long as none of
/// the selected text goes: it only has to be moved by the trimmed characters.
pub proof fn law_a_selection_keeps_its_text(
    d: DocumentView,
    lines: Seq<LogView>,
    from: int,
    to: int,
)
    requires
        counted(d.lines),
        appended_all(d, lines).trimmed_chars - d.trimmed_chars <= from <= to,
        to <= document_text(d.lines).len(),
    ensures
        ({
            let after = appended_all(d, lines);
            let trimmed = after.trimmed_chars - d.trimmed_chars;
            &&& counted(after.lines)
            &&& shifted(to, trimmed) <= document_text(after.lines).len()
            &&& document_text(after.lines).subrange(shifted(from, trimmed), shifted(to, trimmed))
                == document_text(d.lines).subrange(from, to)
        }),
{
    lemma_appended_all_text(d, lines);
    let after = appended_all(d, lines);
    let trimmed = after.trimmed_chars - d.trimmed_chars;
    let whole = document_text(d.lines) + log_text(lines);
    assert(document_text(after.lines) == whole.skip(trimmed));
    assert(whole.skip(trimmed).subrange(from - trimmed, to - trimmed) =~= document_text(
        d.lines,
    ).subrange(from, to));
}

/// The newest row is always kept, and the rows are always within the limits.
pub proof fn law_the_newest_row_is_kept(d: DocumentView, line: LogView)
    ensures
        within_limits(appended(d, line).lines),
        appended(d, line).lines.len() > 0,
        appended(d, line).lines.last() == row(line),
{
    let all = d.lines.push(row(line));
    lemma_excess(all);
    lemma_row_bytes(line);
    let last = all.skip(all.len() - 1);
    assert(last =~= seq![row(line)]);
    assert(last.drop_last() =~= Seq::<ConsoleLineView>::empty());
    assert(total_bytes(Seq::<ConsoleLineView>::empty()) == 0);
    assert(within_limits(last));
    if excess(all) == all.len() {
        assert(!within_limits(all.skip(all.len() - 1)));
    }
}

/// The rows of log lines, all of them.
pub open spec fn rows(lines: Seq<LogView>) -> Seq<ConsoleLineView> {
    lines.map_values(|l: LogView| row(l))
}

/// Whether rows are the last ones of others, in their order.
pub open spec fn is_tail(part: Seq<ConsoleLineView>, whole: Seq<ConsoleLineView>) -> bool {
    part.len() <= whole.len() && part == whole.skip(whole.len() - part.len())
}

/// What all calls appended so far.
pub open spec fn all_lines(calls: Seq<Seq<LogView>>) -> Seq<LogView>
    decreases calls.len(),
{
    if calls.len() == 0 {
        Seq::empty()
    } else {
        all_lines(calls.drop_last()) + calls.last()
    }
}

/// Whether a document is what a new one becomes by some append calls. What was trimmed, and
/// whether the rows changed, may be asked for after each.
pub open spec fn after_calls(d: DocumentView, calls: Seq<Seq<LogView>>) -> bool
    decreases calls.len(),
{
    if calls.len() == 0 {
        d.lines.len() == 0 && d.bytes == 0
    } else {
        exists|before: DocumentView|
            {
                &&& after_calls(before, calls.drop_last())
                &&& d.lines == (#[trigger] appended_all(before, calls.last())).lines
                &&& d.bytes == appended_all(before, calls.last()).bytes
            }
    }
}

proof fn lemma_appended_tail(d: DocumentView, lines: Seq<LogView>, whole: Seq<ConsoleLineView>)
    requires
        within_limits(d.lines),
        d.bytes == total_bytes(d.lines),
        is_tail(d.lines, whole),
        whole.len() > 0 ==> d.lines.len() > 0,
    ensures
        within_limits(appended_all(d, lines).lines),
        appended_all(d, lines).bytes == total_bytes(appended_all(d, lines).lines),
        is_tail(appended_all(d, lines).lines, whole + rows(lines)),
        (whole + rows(lines)).len() > 0 ==> appended_all(d, lines).lines.len() > 0,
    decreases lines.len(),
{
    if lines.len() == 0 {
        assert(whole + rows(lines) =~= whole);
    } else {
        let rest = lines.drop_last();
        lemma_appended_tail(d, rest, whole);
        let middle = appended_all(d, rest);
        law_the_newest_row_is_kept(middle, lines.last());
        let all = middle.lines.push(row(lines.last()));
        lemma_excess(all);
        let longer = whole + rows(lines);
        let shorter = whole + rows(rest);
        assert(longer =~= shorter.push(row(lines.last())));
        assert(all =~= longer.skip(longer.len() - all.len()));
        let kept = appended_all(d, lines).lines;
        assert(kept =~= longer.skip(longer.len() - kept.len()));
    }
}

/// Whatever is appended, in however many calls: the rows are the latest of all rows that
/// ever were, in their order and with the newest among them, there are at most two thousand,
/// and the byte count is the sum of their bytes and within its limit.
pub proof fn law_the_rows_are_the_latest(d: DocumentView, calls: Seq<Seq<LogView>>)
    requires
        after_calls(d, calls),
    ensures
        d.lines.len() <= MAX_ROWS,
        d.bytes == total_bytes(d.lines),
        d.bytes <= MAX_TEXT_BYTES,
        is_tail(d.lines, rows(all_lines(calls))),
        all_lines(calls).len() > 0 ==> d.lines.len() > 0 && d.lines.last() == row(
            all_lines(calls).last(),
        ),
    decreases calls.len(),
{
    let whole = rows(all_lines(calls));
    if calls.len() == 0 {
        assert(d.lines =~= whole.skip(0));
    } else {
        let before = choose|before: DocumentView|
            {
                &&& after_calls(before, calls.drop_last())
                &&& d.lines == (#[trigger] appended_all(before, calls.last())).lines
                &&& d.bytes == appended_all(before, calls.last()).bytes
            };
        law_the_rows_are_the_latest(before, calls.drop_last());
        let earlier = rows(all_lines(calls.drop_last()));
        lemma_appended_tail(before, calls.last(), earlier);
        assert(earlier + rows(calls.last()) =~= whole);
    }
}

/// A row is its time, its level in five characters and its text, each as far as it fits, with
/// blanks between and a line feed behind; its ends are where the time and the level end.
pub proof fn law_rows_tell_time_level_and_text(l: LogView)
    requires
        utf8_len(l.timestamp) <= 32,
        utf8_len(l.text) <= 4096,
    ensures
        row(l).text == l.timestamp + " "@ + level_text(l.level) + " "@ + l.text + "\n"@,
        row(l).chars == row(l).text.len(),
        row(l).level == l.level,
        row(l).timestamp_end == utf8_len(l.timestamp + " "@),
        row(l).level_end == utf8_len(l.timestamp + " "@ + level_text(l.level) + " "@),
        level_text(l.level).len() == 5,
        row(l).text.last() == '\n',
{
    lemma_fit(l.timestamp, 32);
    lemma_fit(l.text, 4096);
    assert(l.timestamp.take(l.timestamp.len() as int) =~= l.timestamp);
    assert(l.text.take(l.text.len() as int) =~= l.text);
    assert(fit(l.timestamp, 32) == l.timestamp);
    assert(fit(l.text, 4096) == l.text);
    lemma_row_bytes(l);
    lemma_level_bytes(l.level);
    reveal_strlit(" ");
    reveal_strlit("\n");
    assert(" "@ =~= seq![' ']);
    assert("\n"@ =~= seq!['\n']);
    crate::text::lemma_utf8_len_push(Seq::empty(), ' ');
    assert(seq![' '] =~= Seq::<char>::empty().push(' '));
    assert(utf8_len(seq![' ']) == 1);
    lemma_utf8_len_concat(l.timestamp, seq![' ']);
    lemma_utf8_len_concat(l.timestamp + seq![' '], level_text(l.level));
    lemma_utf8_len_concat(l.timestamp + seq![' '] + level_text(l.level), seq![' ']);
}

proof fn lemma_level_bytes(level: Level)
    ensures
        level_text(level).len() == 5,
        utf8_len(level_text(level)) == 5,
{
    reveal_strlit("ERROR");
    reveal_strlit("WARN ");
    reveal_strlit("INFO ");
    reveal_strlit("DEBUG");
    reveal_strlit("TRACE");
    let s = level_text(level);
    reveal_with_fuel(utf8_len, 6);
    assert(s.len() == 5);
    assert(s.drop_last().last() == s[3]);
    assert(s.drop_last().drop_last().last() == s[2]);
    assert(s.drop_last().drop_last().drop_last().last() == s[1]);
    assert(s.drop_last().drop_last().drop_last().drop_last().last() == s[0]);
}

/// A selection moves towards the front by what was trimmed there, and stays at the front where
/// that is more.
pub proof fn law_selections_move_with_their_text(at: int, trimmed: int)
    requires
        0 <= at,
        0 <= trimmed,
    ensures
        shifted(at, 0) == at,
        shifted(at + trimmed, trimmed) == at,
        at <= trimmed ==> shifted(at, trimmed) == 0,
{
}

} // verus!
