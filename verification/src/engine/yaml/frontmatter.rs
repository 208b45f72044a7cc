//! Frontmatter delimiter handling.
//!
//! A lesson file looks like:
//!
//! ```text
//! ---
//! id: les-...
//! description: ...
//! ---
//!
//! Markdown body content goes here.
//! ```
//!
//! This module splits and combines the `---`-delimited frontmatter block. The YAML inside is the
//! business of `writer`; this module handles the outer envelope.

use vstd::prelude::*;

use crate::text::{from_chars, has_prefix, occurs_at, to_chars, without_trailing};

verus! {

/// Why a file could not be split.
#[derive(Debug, Clone, Copy, PartialEq, Eq, Structural)]
pub enum FrontmatterError {
    /// The file does not begin with a `---` line.
    MissingOpening,
    /// No `---` line closes the block.
    MissingClosing,
}

impl FrontmatterError {
    pub open spec fn text(self) -> Seq<char> {
        match self {
            FrontmatterError::MissingOpening =>
                "file does not start with a `---` frontmatter delimiter"@,
            FrontmatterError::MissingClosing => "frontmatter has no closing `---` delimiter"@,
        }
    }

    /// The message shown for this error.
    pub fn message(&self) -> (m: String)
        ensures
            m@ == self.text(),
    {
        match self {
            FrontmatterError::MissingOpening =>
                "file does not start with a `---` frontmatter delimiter".to_owned(),
            FrontmatterError::MissingClosing =>
                "frontmatter has no closing `---` delimiter".to_owned(),
        }
    }
}

/// Result of splitting a lesson file into its frontmatter block and body.
#[derive(Debug, Clone, PartialEq, Eq)]
pub struct FrontmatterSplit<'a> {
    /// The YAML between the `---` delimiters (no delimiters, no trailing newline).
    pub yaml: &'a str,
    /// The markdown body after the closing `---`. Keeps leading newlines.
    pub body: &'a str,
}

/// Result of splitting a lesson file, with line endings normalized.
#[derive(Debug, Clone, PartialEq, Eq)]
pub struct OwnedFrontmatterSplit {
    pub yaml: String,
    pub body: String,
}

/// Three dashes.
pub open spec fn dashes() -> Seq<char> {
    seq!['-', '-', '-']
}

/// The length of the opening delimiter line of `s`: `---` and a line ending; 0 where there is
/// none.
pub open spec fn opening_len(s: Seq<char>) -> int {
    if has_prefix(s, dashes().push('\n')) {
        4
    } else if has_prefix(s, dashes().push('\r').push('\n')) {
        5
    } else {
        0
    }
}

/// Whether a closing delimiter begins at `i`: three dashes at the start of a line that run up to
/// a line ending or to the end of the text.
pub open spec fn closes_at(s: Seq<char>, i: int) -> bool {
    &&& occurs_at(s, dashes(), i)
    &&& i == 0 || s[i - 1] == '\n'
    &&& after_closing(s, i) > 0
}

/// Where the body begins, were a closing delimiter to stand at `i`; 0 where what follows the
/// dashes is neither a line ending nor the end of the text.
pub open spec fn after_closing(s: Seq<char>, i: int) -> int {
    if i + 3 == s.len() {
        i + 3
    } else if s[i + 3] == '\n' {
        i + 4
    } else if s[i + 3] == '\r' && i + 4 < s.len() && s[i + 4] == '\n' {
        i + 5
    } else {
        0
    }
}

/// Whether the first closing delimiter of `s` begins at `i`.
pub open spec fn first_closing_at(s: Seq<char>, i: int) -> bool {
    closes_at(s, i) && forall|j: int| 0 <= j < i ==> !#[trigger] closes_at(s, j)
}

/// Where the YAML ends when the closing delimiter begins at `i`: the newline before the
/// delimiter belongs to it.
pub open spec fn yaml_end(i: int) -> int {
    if i > 0 {
        i - 1
    } else {
        0
    }
}

/// What splitting gives on `s`.
pub open spec fn split_of(s: Seq<char>) -> Result<(Seq<char>, Seq<char>), FrontmatterError> {
    let rest = s.skip(opening_len(s));
    if opening_len(s) == 0 {
        Err(FrontmatterError::MissingOpening)
    } else if exists|i: int| first_closing_at(rest, i) {
        let i = choose|i: int| first_closing_at(rest, i);
        Ok((rest.subrange(0, yaml_end(i)), rest.skip(after_closing(rest, i))))
    } else {
        Err(FrontmatterError::MissingClosing)
    }
}

/// `s` with every `\r\n` replaced by `\n`.
pub open spec fn crlf_to_lf(s: Seq<char>) -> Seq<char>
    decreases s.len(),
{
    if s.len() == 0 {
        s
    } else if s.len() >= 2 && s[0] == '\r' && s[1] == '\n' {
        seq!['\n'] + crlf_to_lf(s.skip(2))
    } else {
        seq![s[0]] + crlf_to_lf(s.skip(1))
    }
}

/// `s` without the character `c`.
pub open spec fn without_char(s: Seq<char>, c: char) -> Seq<char> {
    s.filter(|x: char| x != c)
}

/// The file that `combine_frontmatter` writes.
pub open spec fn combined(yaml: Seq<char>, body: Seq<char>) -> Seq<char> {
    dashes().push('\n') + without_trailing(yaml, '\n') + seq!['\n', '-', '-', '-', '\n', '\n']
        + body + final_newline(body)
}

/// The newline that is added to a body that lacks one.
pub open spec fn final_newline(body: Seq<char>) -> Seq<char> {
    if body.len() > 0 && body.last() == '\n' {
        seq![]
    } else {
        seq!['\n']
    }
}

struct CloseLocation {
    yaml_end: usize,
    body_start: usize,
}

/// There is at most one first closing delimiter.
proof fn lemma_first_closing_unique(s: Seq<char>, i: int, j: int)
    requires
        first_closing_at(s, i),
        first_closing_at(s, j),
    ensures
        i == j,
{
    if i < j {
        assert(closes_at(s, i));
    }
    if j < i {
        assert(closes_at(s, j));
    }
}

/// Looks for the first closing delimiter in `chars[from..]`.
fn find_closing_delimiter(chars: &Vec<char>, from: usize) -> (found: Option<CloseLocation>)
    requires
        from <= chars.len(),
    ensures
        match found {
            Some(loc) => exists|i: int|
                {
                    &&& #[trigger] first_closing_at(chars@.skip(from as int), i)
                    &&& loc.yaml_end == from + yaml_end(i)
                    &&& loc.body_start == from + after_closing(chars@.skip(from as int), i)
                    &&& loc.yaml_end <= loc.body_start <= chars.len()
                },
            None => forall|i: int| !#[trigger] closes_at(chars@.skip(from as int), i),
        },
{
    let ghost rest = chars@.skip(from as int);
    let n: usize = chars.len();
    let mut at: usize = from;
    while at < n && n - at >= 3
        invariant
            n == chars.len(),
            from <= at <= n,
            rest == chars@.skip(from as int),
            forall|j: int| 0 <= j < at - from ==> !#[trigger] closes_at(rest, j),
        decreases n - at,
    {
        let ghost i = at - from;
        let dashed = chars[at] == '-' && chars[at + 1] == '-' && chars[at + 2] == '-';
        let line_start = at == from || chars[at - 1] == '\n';
        proof {
            assert(rest.subrange(i, i + 3).len() == 3);
            assert(rest.subrange(i, i + 3)[0] == chars@[at as int]);
            assert(rest.subrange(i, i + 3)[1] == chars@[at + 1]);
            assert(rest.subrange(i, i + 3)[2] == chars@[at + 2]);
            if dashed {
                assert(rest.subrange(i, i + 3) =~= dashes());
            } else {
                assert(dashes()[0] == '-' && dashes()[1] == '-' && dashes()[2] == '-');
                assert(!occurs_at(rest, dashes(), i));
            }
        }
        if dashed && line_start {
            let yaml_end: usize = if at > from {
                at - 1
            } else {
                at
            };
            let tail: usize = n - at - 3;
            if tail == 0 {
                proof {
                    assert(first_closing_at(rest, i));
                }
                return Some(CloseLocation { yaml_end, body_start: at + 3 });
            }
            if chars[at + 3] == '\n' {
                proof {
                    assert(first_closing_at(rest, i));
                }
                return Some(CloseLocation { yaml_end, body_start: at + 4 });
            }
            if chars[at + 3] == '\r' && tail >= 2 && chars[at + 4] == '\n' {
                proof {
                    assert(first_closing_at(rest, i));
                }
                return Some(CloseLocation { yaml_end, body_start: at + 5 });
            }
        }
        proof {
            assert(!closes_at(rest, i));
        }
        at += 1;
    }
    None
}

/// Split a full lesson file into its frontmatter YAML and its body. Fails if the file does not
/// begin with a `---` line or has no closing one.
pub fn split_frontmatter(source: &str) -> (r: Result<FrontmatterSplit<'_>, FrontmatterError>)
    ensures
        match split_of(source@) {
            Ok((yaml, body)) => r is Ok && r->Ok_0.yaml@ == yaml && r->Ok_0.body@ == body,
            Err(e) => r == Err::<FrontmatterSplit<'_>, FrontmatterError>(e),
        },
{
    let chars = to_chars(source);
    let n: usize = chars.len();
    proof {
        lemma_opening_len(source@);
    }
    let dashed = n >= 3 && chars[0] == '-' && chars[1] == '-' && chars[2] == '-';
    let open: usize = if dashed && n >= 4 && chars[3] == '\n' {
        4
    } else if dashed && n >= 5 && chars[3] == '\r' && chars[4] == '\n' {
        5
    } else {
        return Err(FrontmatterError::MissingOpening);
    };
    let ghost rest = source@.skip(open as int);
    match find_closing_delimiter(&chars, open) {
        Some(loc) => {
            proof {
                let i = choose|i: int| #[trigger]
                    first_closing_at(rest, i) && loc.yaml_end == open + yaml_end(i)
                        && loc.body_start == open + after_closing(rest, i);
                let k = choose|k: int| first_closing_at(rest, k);
                lemma_first_closing_unique(rest, i, k);
                assert(source@.subrange(open as int, loc.yaml_end as int) =~= rest.subrange(
                    0,
                    yaml_end(i),
                ));
                assert(source@.subrange(loc.body_start as int, n as int) =~= rest.skip(
                    after_closing(rest, i),
                ));
            }
            Ok(
                FrontmatterSplit {
                    yaml: source.substring_char(open, loc.yaml_end),
                    body: source.substring_char(loc.body_start, n),
                },
            )
        },
        None => {
            proof {
                if exists|i: int| first_closing_at(rest, i) {
                    let i = choose|i: int| first_closing_at(rest, i);
                    assert(closes_at(rest, i));
                }
            }
            Err(FrontmatterError::MissingClosing)
        },
    }
}

/// The opening delimiter, character by character.
proof fn lemma_opening_len(s: Seq<char>)
    ensures
        ({
            let dashed = s.len() >= 3 && s[0] == '-' && s[1] == '-' && s[2] == '-';
            opening_len(s) == (if dashed && s.len() >= 4 && s[3] == '\n' {
                4int
            } else if dashed && s.len() >= 5 && s[3] == '\r' && s[4] == '\n' {
                5int
            } else {
                0int
            })
        }),
{
    let lf = dashes().push('\n');
    let crlf = dashes().push('\r').push('\n');
    if s.len() >= 4 {
        let h = s.subrange(0, 4);
        assert(h[0] == s[0] && h[1] == s[1] && h[2] == s[2] && h[3] == s[3]);
        assert(lf[0] == '-' && lf[1] == '-' && lf[2] == '-' && lf[3] == '\n');
        if s[0] == '-' && s[1] == '-' && s[2] == '-' && s[3] == '\n' {
            assert(h =~= lf);
        }
    }
    if s.len() >= 5 {
        let h = s.subrange(0, 5);
        assert(h[0] == s[0] && h[1] == s[1] && h[2] == s[2] && h[3] == s[3] && h[4] == s[4]);
        assert(crlf[0] == '-' && crlf[1] == '-' && crlf[2] == '-' && crlf[3] == '\r' && crlf[4]
            == '\n');
        if s[0] == '-' && s[1] == '-' && s[2] == '-' && s[3] == '\r' && s[4] == '\n' {
            assert(h =~= crlf);
        }
    }
}

/// Replaces every `\r\n` by `\n`.
fn replace_crlf(source: &str) -> (out: String)
    ensures
        out@ == crlf_to_lf(source@),
{
    let chars = to_chars(source);
    let n: usize = chars.len();
    let mut out = String::new();
    let mut i: usize = 0;
    proof {
        assert(source@.skip(0) =~= source@);
        assert(seq![] + crlf_to_lf(source@) =~= crlf_to_lf(source@));
    }
    while i < n
        invariant
            chars@ == source@,
            n == chars.len(),
            i <= n,
            out@ + crlf_to_lf(source@.skip(i as int)) == crlf_to_lf(source@),
        decreases n - i,
    {
        let ghost rest = source@.skip(i as int);
        let ghost before = out@;
        if n - i >= 2 && chars[i] == '\r' && chars[i + 1] == '\n' {
            out.push('\n');
            i += 2;
            proof {
                assert(rest.skip(2) =~= source@.skip(i as int));
                assert(before + (seq!['\n'] + crlf_to_lf(rest.skip(2))) =~= out@ + crlf_to_lf(
                    source@.skip(i as int),
                ));
            }
        } else {
            let c = chars[i];
            out.push(c);
            i += 1;
            proof {
                assert(rest.skip(1) =~= source@.skip(i as int));
                assert(before + (seq![rest[0]] + crlf_to_lf(rest.skip(1))) =~= out@ + crlf_to_lf(
                    source@.skip(i as int),
                ));
            }
        }
    }
    proof {
        assert(source@.skip(n as int) =~= seq![]);
        assert(out@ + crlf_to_lf(source@.skip(n as int)) =~= out@);
    }
    out
}

/// Drops every `c`.
fn remove_char(source: &str, c: char) -> (out: String)
    ensures
        out@ == without_char(source@, c),
{
    let chars = to_chars(source);
    let mut out = String::new();
    let mut i: usize = 0;
    proof {
        reveal(Seq::filter);
        assert(without_char(source@.take(0), c) =~= seq![]);
    }
    while i < chars.len()
        invariant
            chars@ == source@,
            i <= chars.len(),
            out@ == without_char(source@.take(i as int), c),
        decreases chars.len() - i,
    {
        proof {
            reveal(Seq::filter);
            assert(source@.take(i + 1).drop_last() =~= source@.take(i as int));
            assert(source@.take(i + 1).last() == source@[i as int]);
        }
        if chars[i] != c {
            out.push(chars[i]);
        }
        i += 1;
    }
    proof {
        assert(source@.take(source@.len() as int) =~= source@);
    }
    out
}

/// Same as `split_frontmatter`, with CRLF turned into LF in both parts and stray carriage returns
/// dropped from the YAML. Use this for any path that feeds the parser.
pub fn split_frontmatter_normalized(source: &str) -> (r: Result<
    OwnedFrontmatterSplit,
    FrontmatterError,
>)
    ensures
        match split_of(source@) {
            Ok((yaml, body)) => {
                &&& r is Ok
                &&& r->Ok_0.yaml@ == without_char(crlf_to_lf(yaml), '\r')
                &&& r->Ok_0.body@ == crlf_to_lf(body)
            },
            Err(e) => r == Err::<OwnedFrontmatterSplit, FrontmatterError>(e),
        },
{
    match split_frontmatter(source) {
        Ok(split) => {
            let yaml_lf = replace_crlf(split.yaml);
            Ok(
                OwnedFrontmatterSplit {
                    yaml: remove_char(yaml_lf.as_str(), '\r'),
                    body: replace_crlf(split.body),
                },
            )
        },
        Err(e) => Err(e),
    }
}

/// The text without trailing copies of `c`.
fn trim_end_matches(source: &str, c: char) -> (out: String)
    ensures
        out@ == without_trailing(source@, c),
{
    let chars = to_chars(source);
    let mut to: usize = chars.len();
    proof {
        assert(source@.take(to as int) =~= source@);
    }
    while to > 0 && chars[to - 1] == c
        invariant
            chars@ == source@,
            to <= chars.len(),
            without_trailing(source@.take(to as int), c) == without_trailing(source@, c),
        decreases to,
    {
        proof {
            assert(source@.take(to as int).drop_last() =~= source@.take(to - 1));
        }
        to -= 1;
    }
    proof {
        assert(source@.take(to as int) =~= source@.subrange(0, to as int));
    }
    from_chars(&chars, 0, to)
}

/// Combine a frontmatter YAML block and a body into a full lesson file. The YAML is wrapped in
/// `---` lines, a blank line follows, and the body gets a final newline if it lacks one.
///
/// A load and save cycle therefore adds one newline in front of the body; callers that read,
/// modify and write normalize the body first.
pub fn combine_frontmatter(yaml: &str, body: &str) -> (out: String)
    ensures
        out@ == combined(yaml@, body@),
{
    let trimmed_yaml = trim_end_matches(yaml, '\n');
    let body_chars = to_chars(body);
    let mut out = String::new();
    out.append("---\n");
    out.append(trimmed_yaml.as_str());
    out.append("\n---\n\n");
    out.append(body);
    if body_chars.len() == 0 || body_chars[body_chars.len() - 1] != '\n' {
        out.push('\n');
    }
    proof {
        reveal_strlit("---\n");
        reveal_strlit("\n---\n\n");
        assert("---\n"@ =~= dashes().push('\n'));
        assert("\n---\n\n"@ =~= seq!['\n', '-', '-', '-', '\n', '\n']);
        assert(out@ =~= combined(yaml@, body@));
    }
    out
}

/// Splitting what was combined gives back the YAML, without its trailing newlines, and the body
/// with the blank line in front of it and a newline at its end. This needs the YAML to hold no
/// closing delimiter of its own.
pub proof fn law_split_after_combine(yaml: Seq<char>, body: Seq<char>)
    requires
        forall|i: int| !#[trigger] closes_at(without_trailing(yaml, '\n').push('\n'), i),
    ensures
        split_of(combined(yaml, body)) == Ok::<(Seq<char>, Seq<char>), FrontmatterError>(
            (without_trailing(yaml, '\n'), seq!['\n'] + body + final_newline(body)),
        ),
{
    let y = without_trailing(yaml, '\n');
    let file = combined(yaml, body);
    let tail = seq!['\n'] + body + final_newline(body);
    let rest = y + seq!['\n', '-', '-', '-', '\n'] + tail;
    assert(file =~= dashes().push('\n') + rest);
    lemma_opening_len(file);
    assert(opening_len(file) == 4);
    assert(file.skip(4) =~= rest);
    let at = y.len() as int + 1;
    assert(rest.subrange(at, at + 3) =~= dashes());
    assert(rest[at - 1] == '\n');
    assert(rest[at + 3] == '\n');
    assert(closes_at(rest, at));
    assert forall|j: int| 0 <= j < at implies !#[trigger] closes_at(rest, j) by {
        if closes_at(rest, j) {
            let own = y.push('\n');
            assert(forall|k: int| 0 <= k < at ==> rest[k] == own[k]);
            let d = rest.subrange(j, j + 3);
            assert(d[0] == rest[j] && d[1] == rest[j + 1] && d[2] == rest[j + 2]);
            assert(j + 2 != y.len() && j + 1 != y.len() && j != y.len());
            assert(own.subrange(j, j + 3) =~= d);
            assert(rest[j + 3] == own[j + 3]);
            if rest[j + 3] == '\r' {
                assert(j + 3 != y.len());
                assert(rest[j + 4] == own[j + 4]);
            }
            assert(closes_at(own, j));
        }
    }
    assert(first_closing_at(rest, at));
    let k = choose|k: int| first_closing_at(rest, k);
    lemma_first_closing_unique(rest, k, at);
    assert(rest.subrange(0, at - 1) =~= y);
    assert(rest.skip(at + 4) =~= tail);
}

/// One load and save cycle over a file keeps its YAML and puts exactly one newline in front of
/// its body, as long as the body ends in a newline.
pub proof fn law_load_save_adds_one_newline(file: Seq<char>, yaml: Seq<char>, body: Seq<char>)
    requires
        split_of(file) == Ok::<(Seq<char>, Seq<char>), FrontmatterError>((yaml, body)),
        forall|i: int| !#[trigger] closes_at(without_trailing(yaml, '\n').push('\n'), i),
        body.len() > 0 && body.last() == '\n',
    ensures
        split_of(combined(yaml, body)) == Ok::<(Seq<char>, Seq<char>), FrontmatterError>(
            (without_trailing(yaml, '\n'), seq!['\n'] + body),
        ),
{
    law_split_after_combine(yaml, body);
    assert(seq!['\n'] + body + final_newline(body) =~= seq!['\n'] + body);
}

/// The YAML that a normalized split hands to the parser holds no carriage return.
pub proof fn law_normalized_yaml_holds_no_carriage_return(yaml: Seq<char>, i: int)
    requires
        0 <= i < without_char(crlf_to_lf(yaml), '\r').len(),
    ensures
        without_char(crlf_to_lf(yaml), '\r')[i] != '\r',
{
    lemma_without_char(crlf_to_lf(yaml), '\r');
}

proof fn lemma_without_char(s: Seq<char>, c: char)
    ensures
        forall|i: int| 0 <= i < without_char(s, c).len() ==> #[trigger] without_char(s, c)[i] != c,
    decreases s.len(),
{
    reveal(Seq::filter);
    if s.len() > 0 {
        lemma_without_char(s.drop_last(), c);
    }
}

/// A file with LF line endings passes through normalization unchanged.
pub proof fn law_lf_text_is_kept(s: Seq<char>)
    requires
        forall|i: int| 0 <= i < s.len() ==> #[trigger] s[i] != '\r',
    ensures
        crlf_to_lf(s) == s,
        without_char(crlf_to_lf(s), '\r') == s,
{
    lemma_crlf_to_lf_keeps(s);
    lemma_without_absent_char(s, '\r');
}

proof fn lemma_crlf_to_lf_keeps(s: Seq<char>)
    requires
        forall|i: int| 0 <= i < s.len() ==> #[trigger] s[i] != '\r',
    ensures
        crlf_to_lf(s) == s,
    decreases s.len(),
{
    if s.len() > 0 {
        assert forall|i: int| 0 <= i < s.skip(1).len() implies #[trigger] s.skip(1)[i] != '\r' by {
            assert(s[i + 1] != '\r');
        }
        lemma_crlf_to_lf_keeps(s.skip(1));
        assert(s[0] != '\r');
        assert(seq![s[0]] + s.skip(1) =~= s);
    }
}

proof fn lemma_without_absent_char(s: Seq<char>, c: char)
    requires
        forall|i: int| 0 <= i < s.len() ==> #[trigger] s[i] != c,
    ensures
        without_char(s, c) == s,
    decreases s.len(),
{
    reveal(Seq::filter);
    if s.len() > 0 {
        assert forall|i: int| 0 <= i < s.drop_last().len() implies #[trigger] s.drop_last()[i]
            != c by {
            assert(s[i] != c);
        }
        lemma_without_absent_char(s.drop_last(), c);
        assert(s.last() != c);
        assert(s.drop_last().push(s.last()) =~= s);
    }
}

/// Whether a line of a text consists of three dashes, from `i` on. It may end the text.
pub open spec fn is_dash_line(s: Seq<char>, i: int) -> bool {
    &&& 0 <= i && i + 3 <= s.len()
    &&& i > 0 ==> s[i - 1] == '\n'
    &&& s[i] == '-' && s[i + 1] == '-' && s[i + 2] == '-'
    &&& {
        ||| i + 3 == s.len()
        ||| s[i + 3] == '\n'
        ||| s[i + 3] == '\r' && i + 4 < s.len() && s[i + 4] == '\n'
    }
}

proof fn lemma_closing_line(s: Seq<char>, i: int)
    ensures
        closes_at(s, i) <==> is_dash_line(s, i),
{
    if 0 <= i && i + 3 <= s.len() {
        let part = s.subrange(i, i + 3);
        if part == dashes() {
            assert(part[0] == '-' && part[1] == '-' && part[2] == '-');
            assert(s[i] == part[0] && s[i + 1] == part[1] && s[i + 2] == part[2]);
        }
        if s[i] == '-' && s[i + 1] == '-' && s[i + 2] == '-' {
            assert(part =~= dashes());
        }
    }
}

/// A file that begins with a line of three dashes is split at the next such line: what stands
/// between the two is the block, what follows the second is the body. Line breaks of both kinds
/// count.
pub proof fn law_a_file_is_split_at_its_dash_lines(
    opening: Seq<char>,
    yaml: Seq<char>,
    closing: Seq<char>,
    body: Seq<char>,
)
    requires
        opening == seq!['-', '-', '-', '\n'] || opening == seq!['-', '-', '-', '\r', '\n'],
        closing == seq!['-', '-', '-', '\n'] || closing == seq!['-', '-', '-', '\r', '\n'] || (
        closing == seq!['-', '-', '-'] && body.len() == 0),
        forall|i: int| !#[trigger] is_dash_line(yaml + seq!['\n'], i),
    ensures
        split_of(opening + (yaml + seq!['\n'] + closing + body)) == Ok::<
            (Seq<char>, Seq<char>),
            FrontmatterError,
        >((yaml, body)),
        split_of(opening + (closing + body)) == Ok::<(Seq<char>, Seq<char>), FrontmatterError>(
            (Seq::empty(), body),
        ),
{
    let at = yaml.len() as int + 1;
    let head = yaml + seq!['\n'];
    let rest = head + closing + body;
    let file = opening + rest;
    lemma_opening_len(file);
    assert(opening_len(file) == opening.len());
    assert(file.skip(opening.len() as int) =~= rest);
    assert(rest[at - 1] == '\n');
    assert(rest[at] == closing[0] && rest[at + 1] == closing[1] && rest[at + 2] == closing[2]);
    if closing.len() > 3 {
        assert(rest[at + 3] == closing[3]);
        if closing.len() > 4 {
            assert(rest[at + 4] == closing[4]);
        }
    }
    assert(is_dash_line(rest, at));
    lemma_closing_line(rest, at);
    assert forall|j: int| 0 <= j < at implies !#[trigger] closes_at(rest, j) by {
        lemma_closing_line(rest, j);
        if is_dash_line(rest, j) {
            assert(rest[yaml.len() as int] == '\n');
            assert(j + 3 <= yaml.len());
            assert forall|k: int| 0 <= k < head.len() implies #[trigger] rest[k] == head[k] by {}
            assert(is_dash_line(head, j));
        }
    }
    assert(first_closing_at(rest, at));
    let i = choose|i: int| first_closing_at(rest, i);
    lemma_first_closing_unique(rest, i, at);
    assert(rest.subrange(0, yaml_end(at)) =~= yaml);
    assert(rest.skip(after_closing(rest, at)) =~= body);
    let bare = closing + body;
    let short = opening + bare;
    lemma_opening_len(short);
    assert(opening_len(short) == opening.len());
    assert(short.skip(opening.len() as int) =~= bare);
    assert(is_dash_line(bare, 0));
    lemma_closing_line(bare, 0);
    assert(first_closing_at(bare, 0));
    let k = choose|k: int| first_closing_at(bare, k);
    lemma_first_closing_unique(bare, k, 0);
    assert(bare.subrange(0, yaml_end(0)) =~= Seq::<char>::empty());
    assert(bare.skip(after_closing(bare, 0)) =~= body);
}

/// A file that does not begin with a line of three dashes is refused for that.
pub proof fn law_files_without_opening_are_refused(
    source: &str,
    r: Result<FrontmatterSplit<'_>, FrontmatterError>,
)
    requires
        call_ensures(split_frontmatter, (source,), r),
    ensures
        ({
            let s = source@;
            let opens = s.len() >= 4 && s[0] == '-' && s[1] == '-' && s[2] == '-' && (s[3] == '\n'
                || (s[3] == '\r' && s.len() >= 5 && s[4] == '\n'));
            (r matches Err(FrontmatterError::MissingOpening)) <==> !opens
        }),
{
    lemma_opening_len(source@);
}

/// A file without a second line of three dashes is refused for that.
pub proof fn law_files_without_closing_are_refused(
    source: &str,
    r: Result<FrontmatterSplit<'_>, FrontmatterError>,
    opening: Seq<char>,
    rest: Seq<char>,
)
    requires
        call_ensures(split_frontmatter, (source,), r),
        opening == seq!['-', '-', '-', '\n'] || opening == seq!['-', '-', '-', '\r', '\n'],
        source@ == opening + rest,
    ensures
        (r matches Err(FrontmatterError::MissingClosing)) <==> forall|i: int|
            !#[trigger] is_dash_line(rest, i),
{
    let s = source@;
    lemma_opening_len(s);
    assert(opening_len(s) == opening.len());
    assert(s.skip(opening.len() as int) =~= rest);
    if exists|i: int| is_dash_line(rest, i) {
        let i = choose|i: int| is_dash_line(rest, i);
        lemma_closing_line(rest, i);
        lemma_some_line_closes_first(rest, i);
    } else {
        assert forall|i: int| !#[trigger] first_closing_at(rest, i) by {
            lemma_closing_line(rest, i);
            assert(!is_dash_line(rest, i));
        }
    }
}

proof fn lemma_some_line_closes_first(s: Seq<char>, i: int)
    requires
        closes_at(s, i),
    ensures
        exists|k: int| first_closing_at(s, k),
    decreases i,
{
    if exists|j: int| 0 <= j < i && #[trigger] closes_at(s, j) {
        let j = choose|j: int| 0 <= j < i && #[trigger] closes_at(s, j);
        lemma_some_line_closes_first(s, j);
    } else {
        assert(first_closing_at(s, i));
    }
}

proof fn lemma_crlf_join(a: Seq<char>, b: Seq<char>)
    requires
        !(a.len() > 0 && a.last() == '\r' && b.len() > 0 && b[0] == '\n'),
    ensures
        crlf_to_lf(a + b) == crlf_to_lf(a) + crlf_to_lf(b),
    decreases a.len(),
{
    let s = a + b;
    if a.len() == 0 {
        assert(s =~= b);
        assert(crlf_to_lf(a) + crlf_to_lf(b) =~= crlf_to_lf(b));
    } else if a.len() >= 2 && a[0] == '\r' && a[1] == '\n' {
        assert(s.skip(2) =~= a.skip(2) + b);
        lemma_crlf_join(a.skip(2), b);
        assert(crlf_to_lf(s) =~= crlf_to_lf(a) + crlf_to_lf(b));
    } else {
        assert(s.skip(1) =~= a.skip(1) + b);
        assert(s[0] == a[0]);
        if a.len() > 1 {
            assert(s[1] == a[1]);
            assert(a.skip(1).last() == a.last());
        } else if s.len() > 1 {
            assert(s[1] == b[0]);
        }
        lemma_crlf_join(a.skip(1), b);
        assert(crlf_to_lf(s) =~= crlf_to_lf(a) + crlf_to_lf(b));
    }
}

/// Every line break of two characters becomes one of one; nothing else changes.
pub proof fn law_line_breaks_become_one_character(a: Seq<char>, b: Seq<char>, c: char)
    ensures
        crlf_to_lf(a + seq!['\r', '\n'] + b) == crlf_to_lf(a) + seq!['\n'] + crlf_to_lf(b),
        !(c == '\n' && a.len() > 0 && a.last() == '\r') && !(c == '\r' && b.len() > 0 && b[0]
            == '\n') ==> crlf_to_lf(a + seq![c] + b) == crlf_to_lf(a) + seq![c] + crlf_to_lf(b),
{
    let brk = seq!['\r', '\n'];
    lemma_crlf_join(a, brk);
    lemma_crlf_join(a + brk, b);
    assert(brk.skip(2).len() == 0);
    assert(crlf_to_lf(brk.skip(2)) =~= brk.skip(2));
    assert(crlf_to_lf(brk) =~= seq!['\n']);
    let one = seq![c];
    assert(one.skip(1).len() == 0);
    assert(crlf_to_lf(one.skip(1)) =~= one.skip(1));
    assert(crlf_to_lf(one) =~= one);
    if !(c == '\n' && a.len() > 0 && a.last() == '\r') && !(c == '\r' && b.len() > 0 && b[0]
        == '\n') {
        lemma_crlf_join(a, one);
        assert((a + one).last() == c);
        lemma_crlf_join(a + one, b);
    }
}

} // verus!
