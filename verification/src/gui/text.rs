//! Cleaning text before it is shown: terminal escapes and control characters go, and
//! every line is bounded.

use crate::text::{chars_of, lemma_utf8_len_push, string_of, utf8_len, utf8_width};
use vstd::prelude::*;
use vstd::slice::slice_subrange;

verus! {

pub const MAX_LOG_BYTES: usize = 4096;

/// The bytes that one event may fill: two log lines.
pub const MAX_EVENT_BYTES: usize = 8192;

/// Whether a character is a control code (C0, delete, or C1).
pub open spec fn is_control(c: char) -> bool {
    c as u32 <= 0x1f || 0x7f <= c as u32 <= 0x9f
}

/// Whether a character has the Unicode property White_Space.
pub open spec fn is_space(c: char) -> bool {
    let v = c as u32;
    ||| 0x09 <= v <= 0x0d
    ||| v == 0x20
    ||| v == 0x85
    ||| v == 0xa0
    ||| v == 0x1680
    ||| 0x2000 <= v <= 0x200a
    ||| v == 0x2028
    ||| v == 0x2029
    ||| v == 0x202f
    ||| v == 0x205f
    ||| v == 0x3000
}

/// Whether a character is a control code.
pub fn is_control_char(c: char) -> (r: bool)
    ensures
        r == is_control(c),
{
    let v: u32 = c as u32;
    v <= 0x1f || (0x7f <= v && v <= 0x9f)
}

/// Whether a character is white space.
pub fn is_space_char(c: char) -> (r: bool)
    ensures
        r == is_space(c),
{
    let v: u32 = c as u32;
    (0x09 <= v && v <= 0x0d) || v == 0x20 || v == 0x85 || v == 0xa0 || v == 0x1680 || (0x2000 <= v
        && v <= 0x200a) || v == 0x2028 || v == 0x2029 || v == 0x202f || v == 0x205f || v == 0x3000
}

/// A text without the white space at its end.
pub open spec fn trim_end(s: Seq<char>) -> Seq<char>
    decreases s.len(),
{
    if s.len() > 0 && is_space(s.last()) {
        trim_end(s.drop_last())
    } else {
        s
    }
}

/// A text without the white space at its start.
pub open spec fn trim_start(s: Seq<char>) -> Seq<char>
    decreases s.len(),
{
    if s.len() > 0 && is_space(s[0]) {
        trim_start(s.drop_first())
    } else {
        s
    }
}

/// A text without the white space at both ends.
pub open spec fn trim(s: Seq<char>) -> Seq<char> {
    trim_end(trim_start(s))
}

/// The longest prefix that fits in a number of bytes.
pub open spec fn fit(s: Seq<char>, max_bytes: nat) -> Seq<char>
    decreases s.len(),
{
    if s.len() == 0 || utf8_len(s) <= max_bytes {
        s
    } else {
        fit(s.drop_last(), max_bytes)
    }
}

/// What follows a control sequence: it ends with a character from `@` to `~`.
pub open spec fn after_csi(s: Seq<char>) -> Seq<char>
    decreases s.len(),
{
    if s.len() == 0 {
        s
    } else if '@' <= s[0] && s[0] <= '~' {
        s.drop_first()
    } else {
        after_csi(s.drop_first())
    }
}

/// What follows a string sequence: it ends with a bell, or with an escape and a
/// backslash. `escape` says whether the previous character was an escape.
pub open spec fn after_osc(s: Seq<char>, escape: bool) -> Seq<char>
    decreases s.len(),
{
    if s.len() == 0 {
        s
    } else if s[0] == '\x07' || (escape && s[0] == '\\') {
        s.drop_first()
    } else {
        after_osc(s.drop_first(), s[0] == '\x1b')
    }
}

/// What follows an escape character and the sequence that it starts.
pub open spec fn after_escape(s: Seq<char>) -> Seq<char> {
    if s.len() == 0 {
        s
    } else if s[0] == '[' {
        after_csi(s.drop_first())
    } else if s[0] == ']' || s[0] == 'P' || s[0] == '^' || s[0] == '_' {
        after_osc(s.drop_first(), false)
    } else {
        s.drop_first()
    }
}

/// What one character outside escape sequences becomes.
pub open spec fn cleaned(c: char) -> Seq<char> {
    if c == '\n' || c == '\r' {
        seq!['\n']
    } else if c == '\t' {
        seq![' ']
    } else if is_control(c) {
        seq![]
    } else {
        seq![c]
    }
}

proof fn lemma_after_csi_len(s: Seq<char>)
    ensures
        after_csi(s).len() <= s.len(),
    decreases s.len(),
{
    if s.len() > 0 && !('@' <= s[0] && s[0] <= '~') {
        lemma_after_csi_len(s.drop_first());
    }
}

proof fn lemma_after_osc_len(s: Seq<char>, escape: bool)
    ensures
        after_osc(s, escape).len() <= s.len(),
    decreases s.len(),
{
    if s.len() > 0 && !(s[0] == '\x07' || (escape && s[0] == '\\')) {
        lemma_after_osc_len(s.drop_first(), s[0] == '\x1b');
    }
}

pub proof fn lemma_after_escape_len(s: Seq<char>)
    ensures
        after_escape(s).len() <= s.len(),
{
    if s.len() > 0 {
        lemma_after_csi_len(s.drop_first());
        lemma_after_osc_len(s.drop_first(), false);
    }
}

/// A text without escape sequences and control characters. Line breaks become line
/// feeds and tabs become spaces.
pub open spec fn stripped(s: Seq<char>) -> Seq<char>
    decreases s.len(),
{
    if s.len() == 0 {
        s
    } else if s[0] == '\x1b' {
        proof {
            lemma_after_escape_len(s.drop_first());
        }
        stripped(after_escape(s.drop_first()))
    } else {
        cleaned(s[0]) + stripped(s.drop_first())
    }
}

/// What is shown of an event: the stripped text of its first characters, bounded.
pub open spec fn sanitized(s: Seq<char>) -> Seq<char> {
    let head = if s.len() > MAX_EVENT_BYTES {
        s.take(MAX_EVENT_BYTES as int)
    } else {
        s
    };
    fit(stripped(head), MAX_EVENT_BYTES as nat)
}

/// A text with its line feeds turned into spaces.
pub open spec fn joined(s: Seq<char>) -> Seq<char> {
    Seq::new(
        s.len(),
        |i: int|
            if s[i] == '\n' {
                ' '
            } else {
                s[i]
            },
    )
}

/// An event on one line.
pub open spec fn single_line(s: Seq<char>) -> Seq<char> {
    fit(trim(joined(sanitized(s))), MAX_LOG_BYTES as nat)
}

pub proof fn lemma_utf8_len_prefix(s: Seq<char>, k: int)
    requires
        0 <= k <= s.len(),
    ensures
        utf8_len(s.take(k)) <= utf8_len(s),
        k < s.len() ==> utf8_len(s.take(k)) < utf8_len(s),
    decreases s.len() - k,
{
    if k < s.len() {
        lemma_utf8_len_prefix(s, k + 1);
        assert(s.take(k + 1).drop_last() =~= s.take(k));
    } else {
        assert(s.take(k) =~= s);
    }
}

/// A bounded prefix is a prefix, fits, and could not be longer.
pub proof fn lemma_fit(s: Seq<char>, max_bytes: nat)
    ensures
        fit(s, max_bytes).len() <= s.len(),
        fit(s, max_bytes) == s.take(fit(s, max_bytes).len() as int),
        utf8_len(fit(s, max_bytes)) <= max_bytes,
        forall|k: int|
            fit(s, max_bytes).len() < k <= s.len() ==> utf8_len(#[trigger] s.take(k)) > max_bytes,
    decreases s.len(),
{
    if s.len() == 0 || utf8_len(s) <= max_bytes {
        assert(s.take(s.len() as int) =~= s);
    } else {
        let t = s.drop_last();
        lemma_fit(t, max_bytes);
        assert forall|k: int| fit(s, max_bytes).len() < k <= s.len() implies utf8_len(
            #[trigger] s.take(k),
        ) > max_bytes by {
            if k == s.len() {
                assert(s.take(k) =~= s);
            } else {
                assert(s.take(k) =~= t.take(k));
            }
        }
        assert(s.take(fit(s, max_bytes).len() as int) =~= t.take(fit(t, max_bytes).len() as int));
    }
}

/// A prefix that fits, and whose next longer prefix does not, is the bounded prefix.
pub proof fn lemma_fit_unique(s: Seq<char>, max_bytes: nat, k: int)
    requires
        0 <= k <= s.len(),
        utf8_len(s.take(k)) <= max_bytes,
        k < s.len() ==> utf8_len(s.take(k + 1)) > max_bytes,
    ensures
        fit(s, max_bytes) == s.take(k),
{
    lemma_fit(s, max_bytes);
    let n = fit(s, max_bytes).len() as int;
    if n < k {
        assert(utf8_len(s.take(k)) > max_bytes);
    } else if k < n {
        assert(s.take(n).take(k + 1) =~= s.take(k + 1));
        lemma_utf8_len_prefix(s.take(n), k + 1);
    }
}

/// How many bytes UTF-8 uses for one character.
pub fn char_width(c: char) -> (w: usize)
    ensures
        w == utf8_width(c),
        1 <= w <= 4,
{
    let v: u32 = c as u32;
    if v < 0x80 {
        1
    } else if v < 0x800 {
        2
    } else if v < 0x1_0000 {
        3
    } else {
        4
    }
}

/// The index behind a control sequence.
fn skip_csi(chars: &[char], start: usize) -> (end: usize)
    requires
        start <= chars@.len(),
    ensures
        start <= end <= chars@.len(),
        chars@.skip(end as int) == after_csi(chars@.skip(start as int)),
{
    let mut i: usize = start;
    while i < chars.len()
        invariant
            start <= i <= chars@.len(),
            after_csi(chars@.skip(i as int)) == after_csi(chars@.skip(start as int)),
        decreases chars@.len() - i,
    {
        let c = chars[i];
        assert(chars@.skip(i as int).drop_first() =~= chars@.skip(i + 1));
        i = i + 1;
        if '@' <= c && c <= '~' {
            return i;
        }
    }
    i
}

/// The index behind a string sequence.
fn skip_osc(chars: &[char], start: usize) -> (end: usize)
    requires
        start <= chars@.len(),
    ensures
        start <= end <= chars@.len(),
        chars@.skip(end as int) == after_osc(chars@.skip(start as int), false),
{
    let mut i: usize = start;
    let mut escape = false;
    while i < chars.len()
        invariant
            start <= i <= chars@.len(),
            after_osc(chars@.skip(i as int), escape) == after_osc(chars@.skip(start as int), false),
        decreases chars@.len() - i,
    {
        let c = chars[i];
        assert(chars@.skip(i as int).drop_first() =~= chars@.skip(i + 1));
        i = i + 1;
        if c == '\x07' || (escape && c == '\\') {
            return i;
        }
        escape = c == '\x1b';
    }
    i
}

/// The index behind an escape sequence whose escape character is just before `start`.
fn skip_escape(chars: &[char], start: usize) -> (end: usize)
    requires
        start <= chars@.len(),
    ensures
        start <= end <= chars@.len(),
        chars@.skip(end as int) == after_escape(chars@.skip(start as int)),
{
    if start == chars.len() {
        return start;
    }
    let c = chars[start];
    assert(chars@.skip(start as int).drop_first() =~= chars@.skip(start + 1));
    if c == '[' {
        skip_csi(chars, start + 1)
    } else if c == ']' || c == 'P' || c == '^' || c == '_' {
        skip_osc(chars, start + 1)
    } else {
        start + 1
    }
}

/// The shown characters of an event.
fn sanitize_chars(chars: &[char]) -> (out: Vec<char>)
    requires
        chars@.len() <= MAX_EVENT_BYTES,
    ensures
        out@ == fit(stripped(chars@), MAX_EVENT_BYTES as nat),
{
    let mut out: Vec<char> = Vec::new();
    let mut size: usize = 0;
    let mut i: usize = 0;
    let ghost whole = stripped(chars@);
    assert(chars@.skip(0) =~= chars@);
    while i < chars.len()
        invariant
            i <= chars@.len(),
            whole == stripped(chars@),
            whole == out@ + stripped(chars@.skip(i as int)),
            size == utf8_len(out@),
            size <= MAX_EVENT_BYTES,
        decreases chars@.len() - i,
    {
        let c = chars[i];
        let ghost rest = chars@.skip(i as int);
        let ghost before = out@;
        assert(rest.drop_first() =~= chars@.skip(i + 1));
        if c == '\x1b' {
            i = skip_escape(chars, i + 1);
            continue;
        }
        i = i + 1;
        let shown: char = if c == '\n' || c == '\r' {
            '\n'
        } else if c == '\t' {
            ' '
        } else if is_control_char(c) {
            assert(out@ + stripped(rest) =~= out@ + stripped(rest.drop_first()));
            continue;
        } else {
            c
        };
        let width: usize = char_width(shown);
        assert(cleaned(c) == seq![shown]);
        assert(stripped(rest) == cleaned(c) + stripped(rest.drop_first()));
        assert(out@ + stripped(rest) =~= out@.push(shown) + stripped(rest.drop_first()));
        proof {
            lemma_utf8_len_push(out@, shown);
        }
        if size + width > MAX_EVENT_BYTES {
            proof {
                let k = out@.len() as int;
                assert(whole.take(k) =~= out@);
                assert(whole.take(k + 1) =~= out@.push(shown));
                lemma_fit_unique(whole, MAX_EVENT_BYTES as nat, k);
            }
            return out;
        }
        out.push(shown);
        size = size + width;
    }
    proof {
        assert(chars@.skip(i as int) =~= Seq::<char>::empty());
        assert(whole =~= out@);
        assert(whole.take(whole.len() as int) =~= whole);
        lemma_fit_unique(whole, MAX_EVENT_BYTES as nat, whole.len() as int);
    }
    out
}

/// Drops escape and control sequences while preserving lines, within the bounds of an
/// event.
pub fn sanitize_log_text(text: &str) -> (r: String)
    ensures
        r@ == sanitized(text@),
{
    let chars = chars_of(text);
    let n: usize = if chars.len() > MAX_EVENT_BYTES {
        MAX_EVENT_BYTES
    } else {
        chars.len()
    };
    assert(chars@.subrange(0, n as int) =~= (if text@.len() > MAX_EVENT_BYTES {
        text@.take(MAX_EVENT_BYTES as int)
    } else {
        text@
    }));
    let out = sanitize_chars(slice_subrange(chars.as_slice(), 0, n));
    string_of(out.as_slice())
}

/// How many characters the bounded prefix of a text has.
pub fn fit_count(chars: &[char], max_bytes: usize) -> (n: usize)
    ensures
        n <= chars@.len(),
        chars@.take(n as int) == fit(chars@, max_bytes as nat),
{
    let mut size: usize = 0;
    let mut i: usize = 0;
    assert(chars@.take(0) =~= Seq::<char>::empty());
    while i < chars.len()
        invariant
            i <= chars@.len(),
            size == utf8_len(chars@.take(i as int)),
            size <= max_bytes,
        decreases chars@.len() - i,
    {
        let width: usize = char_width(chars[i]);
        proof {
            assert(chars@.take(i + 1) =~= chars@.take(i as int).push(chars@[i as int]));
            lemma_utf8_len_push(chars@.take(i as int), chars@[i as int]);
        }
        if width > max_bytes - size {
            proof {
                lemma_fit_unique(chars@, max_bytes as nat, i as int);
            }
            return i;
        }
        size = size + width;
        i = i + 1;
    }
    proof {
        lemma_fit_unique(chars@, max_bytes as nat, i as int);
    }
    i
}

/// The longest prefix of a text that fits in a number of bytes.
pub fn bounded_prefix(text: &str, max_bytes: usize) -> (r: String)
    ensures
        r@ == fit(text@, max_bytes as nat),
{
    let chars = chars_of(text);
    let n: usize = fit_count(chars.as_slice(), max_bytes);
    assert(chars@.subrange(0, n as int) =~= chars@.take(n as int));
    string_of(slice_subrange(chars.as_slice(), 0, n))
}

/// The end of a text without its trailing white space.
pub fn trim_end_index(chars: &[char]) -> (end: usize)
    ensures
        end <= chars@.len(),
        chars@.take(end as int) == trim_end(chars@),
{
    let mut end: usize = chars.len();
    assert(chars@.take(end as int) =~= chars@);
    while end > 0 && is_space_char(chars[end - 1])
        invariant
            end <= chars@.len(),
            trim_end(chars@.take(end as int)) == trim_end(chars@),
        decreases end,
    {
        assert(chars@.take(end as int).drop_last() =~= chars@.take(end - 1));
        end = end - 1;
    }
    end
}

/// The start of a text without its leading white space.
pub fn trim_start_index(chars: &[char]) -> (start: usize)
    ensures
        start <= chars@.len(),
        chars@.skip(start as int) == trim_start(chars@),
{
    let mut start: usize = 0;
    assert(chars@.skip(0) =~= chars@);
    while start < chars.len() && is_space_char(chars[start])
        invariant
            start <= chars@.len(),
            trim_start(chars@.skip(start as int)) == trim_start(chars@),
        decreases chars@.len() - start,
    {
        assert(chars@.skip(start as int).drop_first() =~= chars@.skip(start + 1));
        start = start + 1;
    }
    start
}

/// The characters of a text without the white space at both ends.
pub fn trim_chars<'a>(chars: &'a [char]) -> (r: &'a [char])
    ensures
        r@ == trim(chars@),
{
    let start: usize = trim_start_index(chars);
    let tail = slice_subrange(chars, start, chars.len());
    assert(tail@ =~= chars@.skip(start as int));
    let end: usize = trim_end_index(tail);
    assert(tail@.subrange(0, end as int) =~= tail@.take(end as int));
    slice_subrange(tail, 0, end)
}

/// A text without the white space at both ends.
pub fn trim_text(text: &str) -> (r: String)
    ensures
        r@ == trim(text@),
{
    let chars = chars_of(text);
    string_of(trim_chars(chars.as_slice()))
}

/// An event on one bounded line.
pub fn sanitize_single_line(text: &str) -> (r: String)
    ensures
        r@ == single_line(text@),
{
    let clean = sanitize_log_text(text);
    let chars = chars_of(clean.as_str());
    let mut line: Vec<char> = Vec::new();
    let mut i: usize = 0;
    while i < chars.len()
        invariant
            i <= chars@.len(),
            line@ == joined(chars@).take(i as int),
        decreases chars@.len() - i,
    {
        line.push(
            if chars[i] == '\n' {
                ' '
            } else {
                chars[i]
            },
        );
        i = i + 1;
        assert(line@ =~= joined(chars@).take(i as int));
    }
    assert(line@ =~= joined(chars@));
    let trimmed = trim_chars(line.as_slice());
    let n: usize = fit_count(trimmed, MAX_LOG_BYTES);
    assert(trimmed@.subrange(0, n as int) =~= trimmed@.take(n as int));
    string_of(slice_subrange(trimmed, 0, n))
}

/// A bounded text with the longest prefix of another behind it that fits.
pub open spec fn limited(s: Seq<char>, text: Seq<char>) -> Seq<char> {
    s + fit(
        text,
        if utf8_len(s) <= MAX_EVENT_BYTES {
            (MAX_EVENT_BYTES - utf8_len(s)) as nat
        } else {
            0
        },
    )
}

/// A text that grows to a bound and then stays: an append keeps what fits.
#[derive(Debug)]
pub struct LimitedText(pub String);

impl LimitedText {
    /// Appends the longest prefix of a text that fits behind what is there.
    pub fn write_str(&mut self, text: &str)
        ensures
            final(self).0@ == limited(old(self).0@, text@),
    {
        let used: usize = self.0.as_str().as_bytes().len();
        proof {
            crate::text::lemma_utf8_len_is_encoded_len(self.0@);
        }
        let room: usize = if used <= MAX_EVENT_BYTES {
            MAX_EVENT_BYTES - used
        } else {
            0
        };
        let part = bounded_prefix(text, room);
        self.0.append(part.as_str());
    }
}

/// The parts of a log event as they are read.
#[derive(Debug)]
pub struct LogVisitor {
    pub message: LimitedText,
    pub fields: LimitedText,
}

/// The fields of an event with one more.
pub open spec fn with_field(fields: Seq<char>, name: Seq<char>, value: Seq<char>) -> Seq<char> {
    limited(limited(limited(limited(fields, name), "="@), value), " "@)
}

impl LogVisitor {
    pub fn new() -> (r: Self)
        ensures
            r.message.0@ == Seq::<char>::empty(),
            r.fields.0@ == Seq::<char>::empty(),
    {
        LogVisitor { message: LimitedText(String::new()), fields: LimitedText(String::new()) }
    }

    /// Takes a value of the event: its message, or a field that is shown with its name.
    pub fn record_debug(&mut self, name: &str, value: &str)
        ensures
            final(self).message.0@ == (if name@ == "message"@ {
                limited(old(self).message.0@, value@)
            } else {
                old(self).message.0@
            }),
            final(self).fields.0@ == (if name@ == "message"@ {
                old(self).fields.0@
            } else {
                with_field(old(self).fields.0@, name@, value@)
            }),
    {
        if crate::text::str_eq(name, "message") {
            self.message.write_str(value);
        } else {
            self.fields.write_str(name);
            self.fields.write_str("=");
            self.fields.write_str(value);
            self.fields.write_str(" ");
        }
    }

    /// The text of the event: its message, and behind it its fields, where it has any.
    pub fn into_text(self) -> (r: String)
        ensures
            r@ == (if self.fields.0@.len() == 0 {
                self.message.0@
            } else {
                limited(limited(self.message.0@, " "@), self.fields.0@)
            }),
    {
        let mut message = self.message;
        if !self.fields.0.as_str().is_empty() {
            message.write_str(" ");
            message.write_str(self.fields.0.as_str());
        }
        message.0
    }
}

proof fn lemma_stripped_is_clean(s: Seq<char>)
    ensures
        forall|i: int|
            0 <= i < stripped(s).len() ==> #[trigger] stripped(s)[i] == '\n' || !is_control(
                stripped(s)[i],
            ),
    decreases s.len(),
{
    if s.len() > 0 {
        if s[0] == '\x1b' {
            lemma_after_escape_len(s.drop_first());
            let rest = stripped(after_escape(s.drop_first()));
            lemma_stripped_is_clean(after_escape(s.drop_first()));
            assert(stripped(s) == rest);
        } else {
            let rest = stripped(s.drop_first());
            lemma_stripped_is_clean(s.drop_first());
            assert forall|i: int| 0 <= i < stripped(s).len() implies #[trigger] stripped(s)[i]
                == '\n' || !is_control(stripped(s)[i]) by {
                let n = cleaned(s[0]).len();
                assert(stripped(s) == cleaned(s[0]) + rest);
                if i >= n {
                    assert(rest[i - n] == '\n' || !is_control(rest[i - n]));
                }
            }
        }
    }
}

proof fn lemma_clean_is_kept(s: Seq<char>)
    requires
        forall|i: int| 0 <= i < s.len() ==> #[trigger] s[i] == '\n' || !is_control(s[i]),
    ensures
        stripped(s) == s,
    decreases s.len(),
{
    if s.len() > 0 {
        assert(s[0] == '\n' || !is_control(s[0]));
        assert forall|i: int| 0 <= i < s.drop_first().len() implies #[trigger] s.drop_first()[i]
            == '\n' || !is_control(s.drop_first()[i]) by {
            assert(s[i + 1] == '\n' || !is_control(s[i + 1]));
        }
        lemma_clean_is_kept(s.drop_first());
        assert(stripped(s) =~= s);
    }
}

/// A text that fits the bound and holds no control character but line feeds is shown as it
/// is.
pub proof fn law_a_clean_text_is_shown_unchanged(s: Seq<char>)
    requires
        utf8_len(s) <= MAX_EVENT_BYTES,
        forall|i: int| 0 <= i < s.len() ==> #[trigger] s[i] == '\n' || !is_control(s[i]),
    ensures
        stripped(s) == s,
        sanitized(s) == s,
{
    crate::text::lemma_utf8_len_is_encoded_len(s);
    lemma_clean_is_kept(s);
}

proof fn lemma_csi_end(parameters: Seq<char>, last: char, rest: Seq<char>)
    requires
        forall|i: int|
            0 <= i < parameters.len() ==> !('@' <= #[trigger] parameters[i] && parameters[i]
                <= '~'),
        '@' <= last && last <= '~',
    ensures
        after_csi(parameters + seq![last] + rest) == rest,
    decreases parameters.len(),
{
    let s = parameters + seq![last] + rest;
    if parameters.len() == 0 {
        assert(s.drop_first() =~= rest);
    } else {
        let p = parameters.drop_first();
        assert forall|i: int| 0 <= i < p.len() implies !('@' <= #[trigger] p[i] && p[i] <= '~') by {
            assert(p[i] == parameters[i + 1]);
        }
        lemma_csi_end(p, last, rest);
        assert(s[0] == parameters[0]);
        assert(s.drop_first() =~= p + seq![last] + rest);
    }
}

/// A control sequence, such as one that changes the colour, is gone as a whole, and what
/// follows it is shown as if it were not there.
pub proof fn law_control_sequences_are_gone(parameters: Seq<char>, last: char, rest: Seq<char>)
    requires
        forall|i: int|
            0 <= i < parameters.len() ==> !('@' <= #[trigger] parameters[i] && parameters[i]
                <= '~'),
        '@' <= last && last <= '~',
    ensures
        stripped(seq!['\x1b', '['] + parameters + seq![last] + rest) == stripped(rest),
{
    let s = seq!['\x1b', '['] + parameters + seq![last] + rest;
    let tail = parameters + seq![last] + rest;
    lemma_csi_end(parameters, last, rest);
    assert(s.drop_first().drop_first() =~= tail);
    assert(s.drop_first()[0] == '[');
}

/// Whatever the event, what is shown of it holds no control character but line feeds
/// and fits the bound.
pub proof fn law_sanitized_is_clean_and_bounded(s: Seq<char>)
    ensures
        utf8_len(sanitized(s)) <= MAX_EVENT_BYTES,
        forall|i: int|
            0 <= i < sanitized(s).len() ==> #[trigger] sanitized(s)[i] == '\n' || !is_control(
                sanitized(s)[i],
            ),
{
    let head = if s.len() > MAX_EVENT_BYTES {
        s.take(MAX_EVENT_BYTES as int)
    } else {
        s
    };
    lemma_stripped_is_clean(head);
    lemma_fit(stripped(head), MAX_EVENT_BYTES as nat);
}

/// Showing what was already cleaned changes nothing.
pub proof fn law_sanitized_is_idempotent(s: Seq<char>)
    ensures
        sanitized(sanitized(s)) == sanitized(s),
{
    law_sanitized_is_clean_and_bounded(s);
    law_a_clean_text_is_shown_unchanged(sanitized(s));
}

proof fn lemma_trim_is_part(s: Seq<char>)
    ensures
        forall|i: int| 0 <= i < trim(s).len() ==> s.contains(#[trigger] trim(s)[i]),
{
    lemma_trim_start_is_suffix(s);
    lemma_trim_end_is_prefix(trim_start(s));
    let a = trim_start(s);
    assert forall|i: int| 0 <= i < trim(s).len() implies s.contains(#[trigger] trim(s)[i]) by {
        assert(trim(s)[i] == a[i]);
        assert(a[i] == s[s.len() - a.len() + i]);
    }
}

pub proof fn lemma_trim_start_is_suffix(s: Seq<char>)
    ensures
        trim_start(s).len() <= s.len(),
        trim_start(s) == s.skip(s.len() - trim_start(s).len()),
    decreases s.len(),
{
    if s.len() > 0 && is_space(s[0]) {
        lemma_trim_start_is_suffix(s.drop_first());
        assert(s.skip(s.len() - trim_start(s).len()) =~= s.drop_first().skip(
            s.drop_first().len() - trim_start(s).len(),
        ));
    } else {
        assert(s.skip(0) =~= s);
    }
}

pub proof fn lemma_trim_end_is_prefix(s: Seq<char>)
    ensures
        trim_end(s).len() <= s.len(),
        trim_end(s) == s.take(trim_end(s).len() as int),
        trim_end(s).len() > 0 ==> !is_space(trim_end(s).last()),
    decreases s.len(),
{
    if s.len() > 0 && is_space(s.last()) {
        lemma_trim_end_is_prefix(s.drop_last());
        assert(s.take(trim_end(s).len() as int) =~= s.drop_last().take(trim_end(s).len() as int));
    } else {
        assert(s.take(s.len() as int) =~= s);
    }
}

/// Trimming its start leaves something of a text that ends with no white space.
pub proof fn lemma_trim_start_keeps_end(s: Seq<char>)
    requires
        s.len() > 0,
        !is_space(s.last()),
    ensures
        trim_start(s).len() > 0,
        trim_start(s).last() == s.last(),
    decreases s.len(),
{
    if is_space(s[0]) {
        assert(s.len() > 1);
        assert(s.drop_first().last() == s.last());
        lemma_trim_start_keeps_end(s.drop_first());
    }
}

/// A single line holds no control character at all, and fits a log line.
pub proof fn law_single_line_is_one_clean_line(s: Seq<char>)
    ensures
        utf8_len(single_line(s)) <= MAX_LOG_BYTES,
        forall|i: int| 0 <= i < single_line(s).len() ==> !is_control(#[trigger] single_line(s)[i]),
{
    law_sanitized_is_clean_and_bounded(s);
    let j = joined(sanitized(s));
    lemma_trim_is_part(j);
    lemma_fit(trim(j), MAX_LOG_BYTES as nat);
    assert forall|i: int| 0 <= i < single_line(s).len() implies !is_control(
        #[trigger] single_line(s)[i],
    ) by {
        assert(single_line(s)[i] == trim(j)[i]);
        assert(j.contains(trim(j)[i]));
        let k = choose|k: int| 0 <= k < j.len() && j[k] == trim(j)[i];
        assert(sanitized(s)[k] == '\n' || !is_control(sanitized(s)[k]));
    }
}

proof fn lemma_trim_end(s: Seq<char>)
    ensures
        trim_end(s).len() <= s.len(),
        trim_end(s) == s.take(trim_end(s).len() as int),
        trim_end(s).len() > 0 ==> !is_space(trim_end(s).last()),
        forall|i: int| trim_end(s).len() <= i < s.len() ==> is_space(#[trigger] s[i]),
    decreases s.len(),
{
    if s.len() > 0 && is_space(s.last()) {
        let front = s.drop_last();
        lemma_trim_end(front);
        let n = trim_end(s).len() as int;
        assert(s.take(n) =~= front.take(n));
        assert forall|i: int| n <= i < s.len() implies is_space(#[trigger] s[i]) by {
            if i < front.len() {
                assert(front[i] == s[i]);
            }
        }
    } else {
        assert(s.take(s.len() as int) =~= s);
    }
}

proof fn lemma_trim_start(s: Seq<char>)
    ensures
        trim_start(s).len() <= s.len(),
        trim_start(s) == s.skip(s.len() - trim_start(s).len()),
        trim_start(s).len() > 0 ==> !is_space(trim_start(s)[0]),
        forall|i: int| 0 <= i < s.len() - trim_start(s).len() ==> is_space(#[trigger] s[i]),
    decreases s.len(),
{
    if s.len() > 0 && is_space(s[0]) {
        let rest = s.drop_first();
        lemma_trim_start(rest);
        let n = s.len() - trim_start(s).len();
        assert(s.skip(n) =~= rest.skip(n - 1));
        assert forall|i: int| 0 <= i < n implies is_space(#[trigger] s[i]) by {
            if i > 0 {
                assert(rest[i - 1] == s[i]);
            }
        }
    } else {
        assert(s.skip(0) =~= s);
    }
}

/// Trimming takes only white space, all of it at both ends, and nothing in between.
pub proof fn law_only_outer_space_is_trimmed(s: Seq<char>) -> (at: int)
    ensures
        0 <= at,
        at + trim(s).len() <= s.len(),
        trim(s) == s.subrange(at, at + trim(s).len()),
        forall|i: int| 0 <= i < at ==> is_space(#[trigger] s[i]),
        forall|i: int| at + trim(s).len() <= i < s.len() ==> is_space(#[trigger] s[i]),
        trim(s).len() > 0 ==> !is_space(trim(s)[0]) && !is_space(trim(s).last()),
        trim_end(s).len() > 0 ==> !is_space(trim_end(s).last()),
        trim_end(s) == s.take(trim_end(s).len() as int),
        forall|i: int| trim_end(s).len() <= i < s.len() ==> is_space(#[trigger] s[i]),
{
    lemma_trim_end(s);
    lemma_trim_start(s);
    let t = trim_start(s);
    lemma_trim_end(t);
    let at = s.len() - t.len();
    assert(trim(s) =~= s.subrange(at, at + trim(s).len()));
    assert forall|i: int| at + trim(s).len() <= i < s.len() implies is_space(#[trigger] s[i]) by {
        assert(t[i - at] == s[i]);
    }
    at
}

/// White space and control codes are what they are by Unicode: the blank and the tab are white
/// space, letters and digits are neither.
pub proof fn law_letters_are_neither_space_nor_control(c: char)
    ensures
        'a' <= c && c <= 'z' || 'A' <= c && c <= 'Z' || '0' <= c && c <= '9' ==> !is_space(c)
            && !is_control(c),
        is_space(' ') && is_space('\t') && is_space('\n') && is_space('\r'),
        !is_control(' ') && is_control('\t') && is_control('\n') && is_control('\x1b') && is_control(
            '\x7f',
        ),
        is_control(c) <==> (c as u32) < 0x20 || 0x7f <= c as u32 && (c as u32) < 0xa0,
{
}

/// The bounded prefix of a text is the longest that fits.
pub proof fn law_the_longest_prefix_is_kept(s: Seq<char>, max_bytes: nat, k: int)
    requires
        0 <= k <= s.len(),
    ensures
        fit(s, max_bytes) == s.take(fit(s, max_bytes).len() as int),
        utf8_len(fit(s, max_bytes)) <= max_bytes,
        utf8_len(s.take(k)) <= max_bytes ==> k <= fit(s, max_bytes).len(),
        utf8_len(s) <= max_bytes ==> fit(s, max_bytes) == s,
{
    lemma_fit(s, max_bytes);
    assert(s.take(s.len() as int) =~= s);
}

/// A control sequence ends with its first character from `@` to `~`, and a string sequence with
/// its first bell; what follows is shown.
pub proof fn law_escape_sequences_end(inner: Seq<char>, last: char, rest: Seq<char>)
    ensures
        (forall|i: int| 0 <= i < inner.len() ==> !('@' <= #[trigger] inner[i] && inner[i] <= '~'))
            && '@' <= last && last <= '~' ==> stripped(
            seq!['\x1b', '['] + inner + seq![last] + rest,
        ) == stripped(rest),
        (forall|i: int|
            0 <= i < inner.len() ==> #[trigger] inner[i] != '\x07' && inner[i] != '\\') && (last
            == ']' || last == 'P' || last == '^' || last == '_') ==> stripped(
            seq!['\x1b', last] + inner + seq!['\x07'] + rest,
        ) == stripped(rest),
        last != '[' && last != ']' && last != 'P' && last != '^' && last != '_' ==> stripped(
            seq!['\x1b', last] + rest,
        ) == stripped(rest),
{
    if (forall|i: int| 0 <= i < inner.len() ==> !('@' <= #[trigger] inner[i] && inner[i] <= '~'))
        && '@' <= last && last <= '~' {
        let s = seq!['\x1b', '['] + inner + seq![last] + rest;
        assert(s.drop_first().drop_first() =~= inner + seq![last] + rest);
        lemma_csi_ends(inner, last, rest);
    }
    if (forall|i: int|
        0 <= i < inner.len() ==> #[trigger] inner[i] != '\x07' && inner[i] != '\\') && (last == ']'
        || last == 'P' || last == '^' || last == '_') {
        let s = seq!['\x1b', last] + inner + seq!['\x07'] + rest;
        assert(s.drop_first().drop_first() =~= inner + seq!['\x07'] + rest);
        lemma_osc_ends(inner, rest, false);
    }
    let s = seq!['\x1b', last] + rest;
    assert(s.drop_first().drop_first() =~= rest);
}

proof fn lemma_csi_ends(inner: Seq<char>, last: char, rest: Seq<char>)
    requires
        forall|i: int| 0 <= i < inner.len() ==> !('@' <= #[trigger] inner[i] && inner[i] <= '~'),
        '@' <= last && last <= '~',
    ensures
        after_csi(inner + seq![last] + rest) == rest,
    decreases inner.len(),
{
    let s = inner + seq![last] + rest;
    if inner.len() == 0 {
        assert(s[0] == last);
        assert(s.drop_first() =~= rest);
    } else {
        assert(s[0] == inner[0]);
        assert(s.drop_first() =~= inner.drop_first() + seq![last] + rest);
        lemma_csi_ends(inner.drop_first(), last, rest);
    }
}

proof fn lemma_osc_ends(inner: Seq<char>, rest: Seq<char>, escape: bool)
    requires
        forall|i: int| 0 <= i < inner.len() ==> #[trigger] inner[i] != '\x07' && inner[i] != '\\',
    ensures
        after_osc(inner + seq!['\x07'] + rest, escape) == rest,
    decreases inner.len(),
{
    let s = inner + seq!['\x07'] + rest;
    if inner.len() == 0 {
        assert(s[0] == '\x07');
        assert(s.drop_first() =~= rest);
    } else {
        assert(s[0] == inner[0]);
        assert(s.drop_first() =~= inner.drop_first() + seq!['\x07'] + rest);
        lemma_osc_ends(inner.drop_first(), rest, inner[0] == '\x1b');
    }
}

/// Without escapes a text is cleaned character by character: line breaks become line feeds, tabs
/// become blanks, other control codes go and all else stays.
pub proof fn law_texts_are_cleaned_by_character(c: char, rest: Seq<char>)
    requires
        c != '\x1b',
    ensures
        c == '\r' || c == '\n' ==> stripped(seq![c] + rest) == seq!['\n'] + stripped(rest),
        c == '\t' ==> stripped(seq![c] + rest) == seq![' '] + stripped(rest),
        is_control(c) && c != '\r' && c != '\n' && c != '\t' ==> stripped(seq![c] + rest)
            == stripped(rest),
        !is_control(c) ==> stripped(seq![c] + rest) == seq![c] + stripped(rest),
        stripped(Seq::<char>::empty()).len() == 0,
{
    let s = seq![c] + rest;
    assert(s.drop_first() =~= rest);
    assert(Seq::<char>::empty() + stripped(rest) =~= stripped(rest));
}

/// Joining lines keeps every character in its place but for line feeds, which become blanks.
pub proof fn law_joined_lines_keep_their_text(s: Seq<char>, i: int)
    requires
        0 <= i < s.len(),
    ensures
        joined(s).len() == s.len(),
        s[i] != '\n' ==> joined(s)[i] == s[i],
        s[i] == '\n' ==> joined(s)[i] == ' ',
{
}

/// A growing text keeps what it has and takes as much more as fits: all of it where there is
/// room.
pub proof fn law_growing_texts_take_what_fits(s: Seq<char>, text: Seq<char>)
    ensures
        limited(s, text).take(s.len() as int) == s,
        utf8_len(s) <= MAX_EVENT_BYTES ==> utf8_len(limited(s, text)) <= MAX_EVENT_BYTES,
        utf8_len(s) + utf8_len(text) <= MAX_EVENT_BYTES ==> limited(s, text) == s + text,
        utf8_len(s) + utf8_len(text) + 2 <= MAX_EVENT_BYTES ==> with_field(s, text, Seq::empty())
            == s + text + "= "@,
{
    let room = if utf8_len(s) <= MAX_EVENT_BYTES {
        (MAX_EVENT_BYTES - utf8_len(s)) as nat
    } else {
        0
    };
    lemma_fit(text, room);
    crate::text::lemma_utf8_len_concat(s, fit(text, room));
    assert(limited(s, text).take(s.len() as int) =~= s);
    if utf8_len(s) + utf8_len(text) + 2 <= MAX_EVENT_BYTES {
        reveal_strlit("=");
        reveal_strlit(" ");
        reveal_strlit("= ");
        crate::text::lemma_utf8_len_concat(s, text);
        let a = s + text;
        lemma_utf8_len_push(Seq::empty(), '=');
        lemma_utf8_len_push(Seq::empty(), ' ');
        assert(utf8_len(Seq::<char>::empty()) == 0);
        assert("="@ =~= Seq::<char>::empty().push('='));
        assert(" "@ =~= Seq::<char>::empty().push(' '));
        assert(utf8_len("="@) == 1 && utf8_len(" "@) == 1);
        crate::text::lemma_utf8_len_concat(a, "="@);
        let b = a + "="@;
        assert(limited(a, "="@) == b);
        assert(b + Seq::<char>::empty() =~= b);
        assert(limited(b, Seq::empty()) == b);
        assert(limited(b, " "@) == b + " "@);
        assert(b + " "@ =~= s + text + "= "@);
    }
}

} // verus!
