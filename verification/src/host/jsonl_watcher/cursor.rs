//! How far a transcript has been read.
//!
//! A file that was replaced or cut short is read from its beginning again. Only complete lines are
//! consumed; what follows the last line break is read again once more has been written.

use vstd::prelude::*;
use vstd::utf8::{
    decode_utf8, decode_utf8_split, is_char_boundary_iff_is_leading_byte, pop_first_scalar, valid_utf8,
    valid_utf8_concat, valid_utf8_split,
};

use crate::path::{
    base_of, file_name, is_name, law_a_name_is_stem_and_extension, law_a_path_ends_in_its_name, stem,
    stem_of,
};
use crate::text::{concat2, decode_text, from_chars, texts, to_chars};

verus! {

/// State of one transcript.
#[derive(Debug, Clone, PartialEq, Eq)]
pub struct FileCursor {
    pub path: String,
    pub session_id: String,
    pub inode: u64,
    /// Everything before it has been consumed.
    pub offset: u64,
    pub last_size: u64,
    pub last_mtime_ms: i64,
    /// Unreadable lines since the last report.
    pub parse_error_count: u32,
}

/// The model of a cursor.
#[verifier::ext_equal]
pub struct CursorModel {
    pub path: Seq<char>,
    pub session_id: Seq<char>,
    pub inode: u64,
    pub offset: u64,
    pub last_size: u64,
    pub last_mtime_ms: i64,
    pub parse_error_count: u32,
}

impl View for FileCursor {
    type V = CursorModel;

    open spec fn view(&self) -> CursorModel {
        CursorModel {
            path: self.path@,
            session_id: self.session_id@,
            inode: self.inode,
            offset: self.offset,
            last_size: self.last_size,
            last_mtime_ms: self.last_mtime_ms,
            parse_error_count: self.parse_error_count,
        }
    }
}

/// What the file system says about a file.
#[derive(Debug, Clone, Copy, PartialEq, Eq, Structural)]
pub struct FileStat {
    pub inode: u64,
    pub size: u64,
    pub mtime_ms: i64,
}

/// What to do after a look at the file.
#[derive(Debug, Clone, Copy, PartialEq, Eq, Structural)]
pub enum CursorAction {
    NoChange,
    /// The file grew.
    Append { read_bytes: u64 },
    /// The file was replaced or cut short; the cursor is at its beginning.
    ReplayFromStart { total_bytes: u64 },
    /// The file is gone.
    Removed,
}

/// A modification time in milliseconds, from whole seconds and the nanoseconds on top.
pub fn mtime_ms(secs: i64, nanos: i64) -> (ms: i64)
    requires
        0 <= nanos,
        i64::MIN <= secs * 1000,
        secs * 1000 + nanos / 1_000_000 <= i64::MAX,
    ensures
        ms == secs * 1000 + nanos / 1_000_000,
{
    secs * 1000 + nanos / 1_000_000
}

/// What a look at the file makes of a cursor, and what to do.
pub open spec fn classified(c: CursorModel, stat: Option<FileStat>) -> (CursorModel, CursorAction) {
    match stat {
        None => (c, CursorAction::Removed),
        Some(s) => if s.inode != c.inode || s.size < c.offset {
            (
                CursorModel {
                    inode: s.inode,
                    offset: 0,
                    last_size: s.size,
                    last_mtime_ms: s.mtime_ms,
                    ..c
                },
                CursorAction::ReplayFromStart { total_bytes: s.size },
            )
        } else if s.size == c.offset {
            (CursorModel { last_mtime_ms: s.mtime_ms, ..c }, CursorAction::NoChange)
        } else {
            (
                CursorModel { last_size: s.size, last_mtime_ms: s.mtime_ms, ..c },
                CursorAction::Append { read_bytes: (s.size - c.offset) as u64 },
            )
        },
    }
}

/// How many bytes are complete lines: up to and with the last line break.
pub open spec fn complete_len(bytes: Seq<u8>) -> int
    decreases bytes.len(),
{
    if bytes.len() == 0 {
        0
    } else if bytes.last() == 0x0a {
        bytes.len() as int
    } else {
        complete_len(bytes.drop_last())
    }
}

/// How many characters come before the first line break.
pub open spec fn line_len(s: Seq<char>) -> int
    decreases s.len(),
{
    if s.len() == 0 || s[0] == '\n' {
        0
    } else {
        1 + line_len(s.skip(1))
    }
}

/// The lines of a text that are not empty.
pub open spec fn lines_of(s: Seq<char>) -> Seq<Seq<char>>
    decreases s.len(),
{
    if s.len() == 0 {
        seq![]
    } else if s[0] == '\n' {
        lines_of(s.skip(1))
    } else {
        proof {
            lemma_line_len(s);
        }
        seq![s.take(line_len(s))] + lines_of(s.skip(line_len(s)))
    }
}

/// The lines that a read completes.
pub open spec fn completed_lines(bytes: Seq<u8>) -> Seq<Seq<char>> {
    lines_of(decode_utf8(bytes.take(complete_len(bytes))))
}

pub proof fn lemma_line_len(s: Seq<char>)
    ensures
        0 <= line_len(s) <= s.len(),
        s.len() > 0 && s[0] != '\n' ==> line_len(s) > 0,
        forall|i: int| 0 <= i < line_len(s) ==> #[trigger] s[i] != '\n',
        line_len(s) < s.len() ==> s[line_len(s)] == '\n',
    decreases s.len(),
{
    if s.len() > 0 && s[0] != '\n' {
        let t = s.skip(1);
        lemma_line_len(t);
        assert forall|i: int| 0 <= i < line_len(s) implies #[trigger] s[i] != '\n' by {
            if i > 0 {
                assert(t[i - 1] == s[i]);
            }
        }
        if line_len(s) < s.len() {
            assert(t[line_len(t)] == s[line_len(s)]);
        }
    }
}

proof fn lemma_complete_len(bytes: Seq<u8>)
    ensures
        0 <= complete_len(bytes) <= bytes.len(),
        complete_len(bytes) > 0 ==> bytes[complete_len(bytes) - 1] == 0x0a,
        forall|i: int| complete_len(bytes) <= i < bytes.len() ==> #[trigger] bytes[i] != 0x0a,
    decreases bytes.len(),
{
    if bytes.len() > 0 && bytes.last() != 0x0a {
        let rest = bytes.drop_last();
        lemma_complete_len(rest);
        assert forall|i: int| complete_len(bytes) <= i < bytes.len() implies #[trigger] bytes[i]
            != 0x0a by {
            if i < rest.len() {
                assert(rest[i] == bytes[i]);
            }
        }
    }
}

/// What a read gave.
#[derive(Debug, Clone, PartialEq, Eq)]
pub struct ReadAppendedResult {
    /// The complete lines, without empty ones.
    pub lines: Vec<String>,
    pub actual_read: u64,
    /// Bytes after the last line break.
    pub fragment_len: u64,
}

impl ReadAppendedResult {
    /// How far the cursor moves: over complete lines only.
    pub fn advance(&self) -> (n: u64)
        ensures
            n == if self.actual_read >= self.fragment_len {
                self.actual_read - self.fragment_len
            } else {
                0
            },
    {
        self.actual_read.saturating_sub(self.fragment_len)
    }
}

/// The lines of a text that are not empty.
fn split_lines(text: &str) -> (lines: Vec<String>)
    ensures
        texts(lines@) == lines_of(text@),
{
    let chars = to_chars(text);
    let ghost all = lines_of(text@);
    let mut lines: Vec<String> = Vec::new();
    let mut start: usize = 0;
    proof {
        assert(chars@.skip(0) =~= chars@);
        assert(texts(lines@) + all =~= all);
    }
    while start < chars.len()
        invariant
            chars@ == text@,
            start <= chars.len(),
            texts(lines@) + lines_of(chars@.skip(start as int)) == all,
        decreases chars.len() - start,
    {
        let ghost rest = chars@.skip(start as int);
        let ghost before = texts(lines@);
        proof {
            assert(rest[0] == chars@[start as int]);
        }
        if chars[start] == '\n' {
            proof {
                assert(rest.skip(1) =~= chars@.skip(start + 1));
            }
            start += 1;
        } else {
            let mut end: usize = start;
            while end < chars.len() && chars[end] != '\n'
                invariant
                    start <= end <= chars.len(),
                    forall|i: int| start <= i < end ==> #[trigger] chars@[i] != '\n',
                decreases chars.len() - end,
            {
                end += 1;
            }
            proof {
                lemma_line_len(rest);
                let n = line_len(rest);
                assert(n == end - start) by {
                    if n < end - start {
                        assert(rest[n] == chars@[start + n]);
                    }
                    if n > end - start {
                        assert(rest[end - start] == chars@[end as int]);
                    }
                }
                assert(rest.take(n) =~= chars@.subrange(start as int, end as int));
                assert(rest.skip(n) =~= chars@.skip(end as int));
            }
            lines.push(from_chars(&chars, start, end));
            proof {
                let line = chars@.subrange(start as int, end as int);
                assert(texts(lines@) =~= before.push(line));
                assert(before + lines_of(rest) =~= before.push(line) + lines_of(
                    chars@.skip(end as int),
                ));
            }
            start = end;
        }
    }
    proof {
        assert(chars@.skip(start as int).len() == 0);
        assert(texts(lines@) + lines_of(chars@.skip(start as int)) =~= texts(lines@));
    }
    lines
}

/// The id of the session of a transcript.
pub open spec fn session_of(path: Seq<char>) -> Seq<char> {
    match base_of(path) {
        Some(name) => stem_of(name),
        None => path,
    }
}

impl FileCursor {
    /// A cursor behind everything that is in the file.
    pub fn new_at_eof(path: String, session_id: String, stat: FileStat) -> (c: FileCursor)
        ensures
            c@ == (CursorModel {
                path: path@,
                session_id: session_id@,
                inode: stat.inode,
                offset: stat.size,
                last_size: stat.size,
                last_mtime_ms: stat.mtime_ms,
                parse_error_count: 0,
            }),
    {
        FileCursor {
            path,
            session_id,
            inode: stat.inode,
            offset: stat.size,
            last_size: stat.size,
            last_mtime_ms: stat.mtime_ms,
            parse_error_count: 0,
        }
    }

    /// A cursor before everything that is in the file.
    pub fn new_at_start(path: String, session_id: String, stat: FileStat) -> (c: FileCursor)
        ensures
            c@ == (CursorModel {
                path: path@,
                session_id: session_id@,
                inode: stat.inode,
                offset: 0,
                last_size: stat.size,
                last_mtime_ms: stat.mtime_ms,
                parse_error_count: 0,
            }),
    {
        FileCursor {
            path,
            session_id,
            inode: stat.inode,
            offset: 0,
            last_size: stat.size,
            last_mtime_ms: stat.mtime_ms,
            parse_error_count: 0,
        }
    }

    /// Takes in a look at the file, absent where it is gone.
    pub fn classify(&mut self, stat: Option<FileStat>) -> (action: CursorAction)
        ensures
            (final(self)@, action) == classified(old(self)@, stat),
    {
        let stat = match stat {
            Some(s) => s,
            None => return CursorAction::Removed,
        };
        if stat.inode != self.inode || stat.size < self.offset {
            self.inode = stat.inode;
            self.offset = 0;
            self.last_size = stat.size;
            self.last_mtime_ms = stat.mtime_ms;
            return CursorAction::ReplayFromStart { total_bytes: stat.size };
        }
        if stat.size == self.offset {
            self.last_mtime_ms = stat.mtime_ms;
            return CursorAction::NoChange;
        }
        self.last_size = stat.size;
        self.last_mtime_ms = stat.mtime_ms;
        CursorAction::Append { read_bytes: stat.size - self.offset }
    }

    /// Splits the bytes of a read into complete lines and what is left over. Fails where the
    /// complete lines are no text.
    pub fn read_appended(&self, bytes: &[u8]) -> (r: Result<ReadAppendedResult, String>)
        ensures
            match r {
                Ok(result) => {
                    &&& valid_utf8(bytes@.take(complete_len(bytes@)))
                    &&& texts(result.lines@) == completed_lines(bytes@)
                    &&& result.actual_read == bytes@.len()
                    &&& result.fragment_len == bytes@.len() - complete_len(bytes@)
                },
                Err(m) => !valid_utf8(bytes@.take(complete_len(bytes@))) && m@ == "utf8 in "@
                    + self.path@,
            },
    {
        let mut end: usize = bytes.len();
        proof {
            assert(bytes@.take(end as int) =~= bytes@);
        }
        while end > 0 && bytes[end - 1] != 0x0a
            invariant
                end <= bytes.len(),
                complete_len(bytes@.take(end as int)) == complete_len(bytes@),
            decreases end,
        {
            proof {
                assert(bytes@.take(end as int).drop_last() =~= bytes@.take(end - 1));
            }
            end -= 1;
        }
        proof {
            let kept = bytes@.take(end as int);
            if end > 0 {
                assert(kept.last() == bytes@[end - 1]);
            }
            assert(complete_len(kept) == end);
        }
        let complete = vstd::slice::slice_subrange(bytes, 0, end);
        proof {
            assert(complete@ =~= bytes@.take(end as int));
        }
        match decode_text(complete) {
            Ok(text) => Ok(
                ReadAppendedResult {
                    lines: split_lines(text.as_str()),
                    actual_read: bytes.len() as u64,
                    fragment_len: (bytes.len() - end) as u64,
                },
            ),
            Err(_) => Err(concat2("utf8 in ", self.path.as_str())),
        }
    }

    /// The id of the session of a transcript: its file name without the extension.
    pub fn session_id_from_path(path: &str) -> (id: String)
        ensures
            id@ == session_of(path@),
    {
        match file_name(path) {
            Some(name) => stem(name.as_str()),
            None => path.to_owned(),
        }
    }
}

// ---- Laws --------------------------------------------------------------------

/// After a look the cursor is never behind the end of the file, and the bytes to read end there.
pub proof fn law_cursor_stays_in_the_file(c: CursorModel, s: FileStat)
    ensures
        ({
            let (d, action) = classified(c, Some(s));
            &&& d.offset <= s.size
            &&& match action {
                CursorAction::NoChange => d.offset == s.size,
                CursorAction::Append { read_bytes } => d.offset + read_bytes == s.size,
                CursorAction::ReplayFromStart { total_bytes } => d.offset == 0 && total_bytes
                    == s.size,
                CursorAction::Removed => false,
            }
        }),
{
}

/// A second look at an unchanged file only repeats the first.
pub proof fn law_second_look_changes_nothing(c: CursorModel, s: FileStat)
    ensures
        classified(classified(c, Some(s)).0, Some(s)).0 == classified(c, Some(s)).0,
{
    let d = classified(c, Some(s)).0;
    assert(classified(d, Some(s)).0 =~= d);
}

proof fn lemma_lines_join(x: Seq<char>, y: Seq<char>)
    requires
        x.len() > 0 ==> x.last() == '\n',
    ensures
        lines_of(x + y) == lines_of(x) + lines_of(y),
    decreases x.len(),
{
    if x.len() == 0 {
        assert(x + y =~= y);
        assert(lines_of(x) + lines_of(y) =~= lines_of(y));
    } else if x[0] == '\n' {
        assert((x + y).skip(1) =~= x.skip(1) + y);
        assert((x + y)[0] == x[0]);
        lemma_lines_join(x.skip(1), y);
    } else {
        lemma_line_len(x);
        lemma_line_len(x + y);
        let n = line_len(x);
        assert(n < x.len()) by {
            if n == x.len() {
                assert(x[n - 1] != '\n');
            }
        }
        assert(line_len(x + y) == n) by {
            let m = line_len(x + y);
            assert((x + y)[n] == x[n]);
            if m < n {
                assert((x + y)[m] == x[m]);
            }
        }
        assert((x + y)[0] == x[0]);
        assert((x + y).take(n) =~= x.take(n));
        assert((x + y).skip(n) =~= x.skip(n) + y);
        assert(x.skip(n).last() == x.last());
        lemma_lines_join(x.skip(n), y);
        assert(lines_of(x + y) =~= lines_of(x) + lines_of(y));
    }
}

proof fn lemma_complete_len_of(bytes: Seq<u8>, n: int)
    requires
        0 <= n <= bytes.len(),
        n > 0 ==> bytes[n - 1] == 0x0a,
        forall|i: int| n <= i < bytes.len() ==> #[trigger] bytes[i] != 0x0a,
    ensures
        complete_len(bytes) == n,
    decreases bytes.len(),
{
    if n < bytes.len() {
        let rest = bytes.drop_last();
        assert(bytes.last() == bytes[bytes.len() - 1]);
        assert forall|i: int| n <= i < rest.len() implies #[trigger] rest[i] != 0x0a by {
            assert(rest[i] == bytes[i]);
        }
        lemma_complete_len_of(rest, n);
    }
}

proof fn lemma_decode_concat(a: Seq<u8>, b: Seq<u8>)
    requires
        valid_utf8(a),
        valid_utf8(b),
    ensures
        valid_utf8(a + b),
        decode_utf8(a + b) == decode_utf8(a) + decode_utf8(b),
    decreases a.len(),
{
    valid_utf8_concat(a, b);
    if a.len() == 0 {
        assert(a + b =~= b);
        assert(decode_utf8(a) + decode_utf8(b) =~= decode_utf8(b));
    } else {
        let rest = pop_first_scalar(a);
        lemma_decode_concat(rest, b);
        assert(pop_first_scalar(a + b) =~= rest + b);
        assert(decode_utf8(a + b) =~= decode_utf8(a) + decode_utf8(b));
    }
}

proof fn lemma_decoded_line_break(bytes: Seq<u8>)
    requires
        valid_utf8(bytes),
        bytes.len() > 0,
        bytes.last() == 0x0a,
    ensures
        decode_utf8(bytes).len() > 0,
        decode_utf8(bytes).last() == '\n',
{
    let n = bytes.len() - 1;
    is_char_boundary_iff_is_leading_byte(bytes, n);
    valid_utf8_split(bytes, n);
    decode_utf8_split(bytes, n);
    let tail = bytes.subrange(n, bytes.len() as int);
    assert(tail =~= seq![0x0au8]);
    reveal_with_fuel(decode_utf8, 2);
    assert(pop_first_scalar(tail).len() == 0);
    assert(0x0au8 & 0x7f == 0x0au8) by (bit_vector);
    assert(decode_utf8(tail) =~= seq!['\n']);
}

/// No line is lost and none is read twice: reading on from the last line break, with what has been
/// written since, gives the lines that one read of everything would have given.
pub proof fn law_no_line_is_lost(first: Seq<u8>, more: Seq<u8>)
    requires
        valid_utf8(first.take(complete_len(first))),
        ({
            let rest = first.skip(complete_len(first)) + more;
            valid_utf8(rest.take(complete_len(rest)))
        }),
    ensures
        completed_lines(first + more) == completed_lines(first) + completed_lines(
            first.skip(complete_len(first)) + more,
        ),
{
    lemma_complete_len(first);
    let n = complete_len(first);
    let rest = first.skip(n) + more;
    lemma_complete_len(rest);
    let m = complete_len(rest);
    let whole = first + more;
    assert(whole =~= first.take(n) + rest);
    assert forall|i: int| n + m <= i < whole.len() implies #[trigger] whole[i] != 0x0a by {
        assert(whole[i] == rest[i - n]);
    }
    if n + m > 0 {
        if m > 0 {
            assert(whole[n + m - 1] == rest[m - 1]);
        } else {
            assert(whole[n - 1] == first[n - 1]);
        }
    }
    lemma_complete_len_of(whole, n + m);
    let a = first.take(n);
    let b = rest.take(m);
    assert(whole.take(n + m) =~= a + b);
    lemma_decode_concat(a, b);
    if n > 0 {
        assert(a.last() == first[n - 1]);
        lemma_decoded_line_break(a);
    } else {
        assert(decode_utf8(a).len() == 0);
    }
    lemma_lines_join(decode_utf8(a), decode_utf8(b));
}

/// A file that is gone leaves the cursor as it is. One with another inode, or shorter than what was
/// read, is read anew from its beginning; one that is as long as what was read has nothing new; of
/// any other the rest is read. Which file and session it is, and how many lines could not be read,
/// stays the same.
pub proof fn law_a_file_is_judged_by_inode_and_size(c: CursorModel, s: FileStat)
    ensures
        classified(c, None) == (c, CursorAction::Removed),
        ({
            let (d, action) = classified(c, Some(s));
            &&& action == (CursorAction::ReplayFromStart { total_bytes: s.size }) <==> s.inode
                != c.inode || s.size < c.offset
            &&& action is NoChange <==> s.inode == c.inode && s.size == c.offset
            &&& action is Append <==> s.inode == c.inode && s.size > c.offset
            &&& action is ReplayFromStart ==> d.offset == 0
            &&& !(action is ReplayFromStart) ==> d.offset == c.offset
            &&& action matches CursorAction::Append { read_bytes } ==> read_bytes == s.size
                - c.offset
            &&& d.inode == s.inode
            &&& d.last_mtime_ms == s.mtime_ms
            &&& !(action is NoChange) ==> d.last_size == s.size
            &&& action is NoChange ==> d.last_size == c.last_size
            &&& d.path == c.path
            &&& d.session_id == c.session_id
            &&& d.parse_error_count == c.parse_error_count
        }),
{
}

/// Only what ends in a line break is taken: what stands behind the last one is left for the next
/// read, and what stands before it must be text.
pub proof fn law_a_read_stops_at_the_last_line_break(
    cursor: &FileCursor,
    bytes: &[u8],
    r: Result<ReadAppendedResult, String>,
    n: int,
)
    requires
        call_ensures(FileCursor::read_appended, (cursor, bytes), r),
        0 <= n <= bytes@.len(),
        n > 0 ==> bytes@[n - 1] == 0x0a,
        forall|i: int| n <= i < bytes@.len() ==> #[trigger] bytes@[i] != 0x0a,
    ensures
        r is Ok <==> valid_utf8(bytes@.take(n)),
        r matches Ok(result) ==> {
            &&& result.actual_read == bytes@.len()
            &&& result.fragment_len == bytes@.len() - n
            &&& texts(result.lines@) == lines_of(decode_utf8(bytes@.take(n)))
        },
{
    lemma_complete_len_of(bytes@, n);
}

/// The lines of a text are what stands between its line breaks, in their order; empty ones are left
/// out.
pub proof fn law_lines_stand_between_line_breaks(line: Seq<char>, rest: Seq<char>)
    requires
        forall|i: int| 0 <= i < line.len() ==> (#[trigger] line[i]) != '\n',
    ensures
        line.len() > 0 ==> lines_of(line + seq!['\n'] + rest) == seq![line] + lines_of(rest),
        line.len() == 0 ==> lines_of(line + seq!['\n'] + rest) == lines_of(rest),
        line.len() > 0 ==> lines_of(line) == seq![line],
        line.len() == 0 ==> lines_of(line).len() == 0,
{
    let head = line + seq!['\n'];
    assert(head.last() == '\n');
    lemma_lines_join(head, rest);
    if line.len() > 0 {
        assert(line[0] != '\n');
        assert(head[0] == line[0]);
        lemma_line_len_of(head, line.len() as int);
        lemma_line_len_of(line, line.len() as int);
        assert(head.take(line.len() as int) =~= line);
        assert(line.take(line.len() as int) =~= line);
        let tail = head.skip(line.len() as int);
        assert(tail.len() == 1 && tail[0] == '\n');
        assert(tail.skip(1).len() == 0);
        assert(lines_of(tail) =~= lines_of(tail.skip(1)));
        assert(lines_of(tail.skip(1)) =~= seq![]);
        assert(lines_of(head) =~= seq![line]);
        assert(line.skip(line.len() as int).len() == 0);
        assert(lines_of(line.skip(line.len() as int)) =~= seq![]);
        assert(lines_of(line) =~= seq![line]);
    } else {
        assert(head.skip(1).len() == 0);
        assert(head[0] == '\n');
        assert(lines_of(head.skip(1)) =~= seq![]);
        assert(lines_of(head) =~= seq![]);
        assert(lines_of(head) + lines_of(rest) =~= lines_of(rest));
    }
}

proof fn lemma_line_len_of(s: Seq<char>, n: int)
    requires
        0 <= n <= s.len(),
        forall|i: int| 0 <= i < n ==> (#[trigger] s[i]) != '\n',
        n < s.len() ==> s[n] == '\n',
    ensures
        line_len(s) == n,
    decreases n,
{
    if n > 0 {
        assert(s[0] != '\n');
        let rest = s.skip(1);
        assert forall|i: int| 0 <= i < n - 1 implies (#[trigger] rest[i]) != '\n' by {
            assert(rest[i] == s[i + 1]);
        }
        lemma_line_len_of(rest, n - 1);
    }
}

/// A transcript is named after its session.
pub proof fn law_a_transcript_is_named_after_its_session(
    path: &str,
    id: String,
    dir: Seq<char>,
    session: Seq<char>,
)
    requires
        call_ensures(FileCursor::session_id_from_path, (path,), id),
        dir.len() > 0 ==> dir.last() == '/',
        session.len() > 0,
        forall|i: int| 0 <= i < session.len() ==> (#[trigger] session[i]) != '/',
        path@ == dir + (session + ".jsonl"@),
    ensures
        id@ == session,
{
    reveal_strlit(".jsonl");
    let extension = "jsonl"@;
    reveal_strlit("jsonl");
    let name = session + ".jsonl"@;
    assert(name =~= session + seq!['.'] + extension);
    law_a_name_is_stem_and_extension(session, extension);
    assert forall|i: int| 0 <= i < name.len() implies (#[trigger] name[i]) != '/' by {
        if i < session.len() {
            assert(name[i] == session[i]);
        }
    }
    law_a_path_ends_in_its_name(dir, name);
}

/// A file that was there before it was watched is taken up at its end, a new one at its beginning.
pub proof fn law_cursors_start_at_an_end(
    path: String,
    session_id: String,
    stat: FileStat,
    old_file: FileCursor,
    new_file: FileCursor,
)
    requires
        call_ensures(FileCursor::new_at_eof, (path, session_id, stat), old_file),
        call_ensures(FileCursor::new_at_start, (path, session_id, stat), new_file),
    ensures
        old_file.offset == stat.size,
        new_file.offset == 0,
        classified(old_file@, Some(stat)).1 is NoChange,
        stat.size > 0 ==> classified(new_file@, Some(stat)).1 == (CursorAction::Append {
            read_bytes: stat.size,
        }),
        old_file.session_id@ == session_id@ && new_file.session_id@ == session_id@,
        old_file.path@ == path@ && new_file.path@ == path@,
        old_file.parse_error_count == 0 && new_file.parse_error_count == 0,
{
    assert(old_file@.offset == stat.size && old_file@.inode == stat.inode);
    assert(new_file@.offset == 0 && new_file@.inode == stat.inode);
}

/// A read moves the cursor over complete lines only.
pub proof fn law_a_cursor_moves_over_complete_lines(
    cursor: &FileCursor,
    bytes: &[u8],
    r: Result<ReadAppendedResult, String>,
    moved: u64,
    n: int,
)
    requires
        call_ensures(FileCursor::read_appended, (cursor, bytes), r),
        r is Ok,
        call_ensures(ReadAppendedResult::advance, (&r->Ok_0,), moved),
        0 <= n <= bytes@.len(),
        n > 0 ==> bytes@[n - 1] == 0x0a,
        forall|i: int| n <= i < bytes@.len() ==> #[trigger] bytes@[i] != 0x0a,
    ensures
        moved == n,
{
    lemma_complete_len_of(bytes@, n);
}

/// A file without an extension is named after its session as a whole, and so is a path that names
/// no file.
pub proof fn law_other_files_are_sessions_too(path: &str, id: String, dir: Seq<char>, name: Seq<char>)
    requires
        call_ensures(FileCursor::session_id_from_path, (path,), id),
    ensures
        base_of(path@) is None ==> id@ == path@,
        path@ == dir + name && (dir.len() > 0 ==> dir.last() == '/') && is_name(name) && (forall|
            i: int,
        |
            0 <= i < name.len() ==> (#[trigger] name[i]) != '.') ==> id@ == name,
{
    if path@ == dir + name && (dir.len() > 0 ==> dir.last() == '/') && is_name(name) && (forall|
        i: int,
    |
        0 <= i < name.len() ==> (#[trigger] name[i]) != '.') {
        law_a_path_ends_in_its_name(dir, name);
        law_a_name_is_stem_and_extension(name, name);
    }
}

} // verus!
