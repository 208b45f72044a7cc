//! YAML scalar rendering: plain, double-quoted or literal block.
//!
//! - Multi-line strings become literal blocks `|-` / `|`, not escaped newlines in quotes.
//! - `.inf`, `.nan`, hex, octal and signed forms are quoted: they would read back as numbers.
//! - `yes`, `no`, `on`, `off` are not quoted (YAML 1.2 dropped them as keywords); embedded quotes
//!   and tabs are legal in plain scalars and stay plain.
//! - Control characters use named escapes where YAML has one.
//! - `?key` (no space after the mark) is plain.

use vstd::prelude::*;

use crate::text::{
    contains_text, is_control, is_control_char, is_space, is_space_char, occurs_at, occurs_in,
    repeated, same_text, to_chars, without_trailing,
};

verus! {

#[derive(Debug, Clone, Copy, PartialEq, Eq, Structural)]
pub enum ScalarStyle {
    Plain,
    DoubleQuoted,
    /// Literal block scalar. `chomp_strip` true is `|-` (no trailing newline); false is `|`.
    LiteralBlock { chomp_strip: bool },
}

// ---- Numbers ---------------------------------------------------------------

pub open spec fn is_digit(c: char) -> bool {
    '0' <= c <= '9'
}

pub open spec fn is_sign(c: char) -> bool {
    c == '+' || c == '-'
}

/// How many decimal digits stand in `s` from index `i` on without a gap.
pub open spec fn digit_run(s: Seq<char>, i: int) -> int
    decreases s.len() - i,
{
    if 0 <= i < s.len() && is_digit(s[i]) {
        1 + digit_run(s, i + 1)
    } else {
        0
    }
}

/// `s[i..]` without a sign: the index after it.
pub open spec fn skip_sign(s: Seq<char>, i: int) -> int {
    if 0 <= i < s.len() && is_sign(s[i]) {
        i + 1
    } else {
        i
    }
}

/// The index after the digits, the point and the fraction of the number at `i`.
pub open spec fn mantissa_end(s: Seq<char>, i: int) -> int {
    let whole = i + digit_run(s, i);
    if whole < s.len() && s[whole] == '.' {
        whole + 1 + digit_run(s, whole + 1)
    } else {
        whole
    }
}

/// Whether the mantissa at `i` has a digit before or after its point.
pub open spec fn mantissa_has_digit(s: Seq<char>, i: int) -> bool {
    let whole = i + digit_run(s, i);
    digit_run(s, i) > 0 || (whole < s.len() && s[whole] == '.' && digit_run(s, whole + 1) > 0)
}

/// Whether an exponent fills `s[i..]`.
pub open spec fn is_exponent(s: Seq<char>, i: int) -> bool {
    &&& i < s.len()
    &&& s[i] == 'e' || s[i] == 'E'
    &&& digit_run(s, skip_sign(s, i + 1)) > 0
    &&& skip_sign(s, i + 1) + digit_run(s, skip_sign(s, i + 1)) == s.len()
}

/// Whether a decimal number fills `s[i..]`: digits with an optional point among or beside them,
/// then an optional exponent.
pub open spec fn is_number_from(s: Seq<char>, i: int) -> bool {
    mantissa_has_digit(s, i) && (mantissa_end(s, i) == s.len() || is_exponent(
        s,
        mantissa_end(s, i),
    ))
}

/// ASCII lower case of one character.
pub open spec fn lower(c: char) -> char {
    if 'A' <= c <= 'Z' {
        ((c as u32) + 32) as char
    } else {
        c
    }
}

/// ASCII lower case of a text.
pub open spec fn lowered(s: Seq<char>) -> Seq<char> {
    s.map_values(|c: char| lower(c))
}

/// Whether a decimal or floating point reader takes the whole of `s` for a number: an optional
/// sign, then `inf`, `infinity`, `nan` in any case, or a decimal number. Every integer literal is
/// one of these.
pub open spec fn is_float_text(s: Seq<char>) -> bool {
    let i = skip_sign(s, 0);
    let word = lowered(s.skip(i));
    ||| word == "inf"@
    ||| word == "infinity"@
    ||| word == "nan"@
    ||| is_number_from(s, i)
}

pub open spec fn is_hex_digit(c: char) -> bool {
    is_digit(c) || 'a' <= c <= 'f' || 'A' <= c <= 'F'
}

/// Hex, octal and binary forms, and YAML's infinities and not-a-numbers.
pub open spec fn is_extra_numeric(s: Seq<char>) -> bool {
    let low = lowered(s);
    ||| {
        &&& s.len() > 2
        &&& low[0] == '0' && (low[1] == 'x' || low[1] == 'o' || low[1] == 'b')
        &&& forall|i: int| 2 <= i < s.len() ==> is_hex_digit(#[trigger] s[i]) || s[i] == '_'
    }
    ||| low == ".inf"@
    ||| low == ".nan"@
    ||| low == "+.inf"@
    ||| low == "-.inf"@
    ||| low == "+.nan"@
    ||| low == "-.nan"@
}

// ---- Styles ----------------------------------------------------------------

/// YAML 1.2's reserved words, with the spellings that some readers accept too.
pub open spec fn is_reserved_word(s: Seq<char>) -> bool {
    ||| s == "true"@
    ||| s == "false"@
    ||| s == "null"@
    ||| s == "True"@
    ||| s == "False"@
    ||| s == "Null"@
    ||| s == "TRUE"@
    ||| s == "FALSE"@
    ||| s == "NULL"@
    ||| s == "~"@
}

/// Characters that no plain scalar may begin with.
pub open spec fn is_indicator(c: char) -> bool {
    ||| c == '-'
    ||| c == ':'
    ||| c == ','
    ||| c == '['
    ||| c == ']'
    ||| c == '{'
    ||| c == '}'
    ||| c == '#'
    ||| c == '&'
    ||| c == '*'
    ||| c == '!'
    ||| c == '|'
    ||| c == '>'
    ||| c == '\''
    ||| c == '"'
    ||| c == '%'
    ||| c == '@'
    ||| c == '`'
}

/// Whether the single-line, non-empty text `s` cannot stand as a plain scalar.
pub open spec fn must_quote(s: Seq<char>) -> bool {
    ||| is_reserved_word(s)
    ||| is_float_text(s)
    ||| is_extra_numeric(s)
    ||| is_indicator(s[0])
    ||| s[0] == '?' && (s.len() == 1 || s[1] == ' ' || s[1] == '\t')
    ||| is_space(s[0])
    ||| occurs_in(s, ": "@)
    ||| occurs_in(s, ":\t"@)
    ||| occurs_in(s, " #"@)
    ||| occurs_in(s, "\t#"@)
    ||| exists|i: int| 0 <= i < s.len() && is_control_char(#[trigger] s[i]) && s[i] != '\t'
    ||| s.last() == ' '
    ||| s.last() == '\t'
    ||| s.last() == ':'
}

/// Whether `s` holds a control character other than newline and tab.
pub open spec fn has_unprintable(s: Seq<char>) -> bool {
    exists|i: int|
        0 <= i < s.len() && is_control_char(#[trigger] s[i]) && s[i] != '\n' && s[i] != '\t'
}

/// Whether `s` ends in an empty line. A block keeps one newline at its end, and none on its own.
pub open spec fn ends_in_empty_line(s: Seq<char>) -> bool {
    s.len() > 0 && s.last() == '\n' && (s.len() == 1 || s[s.len() - 2] == '\n')
}

/// Whether the first line of `s` that is not empty begins with a blank. The indentation of a block is
/// read off that line, so its own blanks would be taken for indentation.
pub open spec fn opens_with_blank(s: Seq<char>) -> bool {
    exists|i: int|
        0 <= i < s.len() && (#[trigger] s[i] == ' ' || s[i] == '\t') && forall|j: int|
            0 <= j < i ==> #[trigger] s[j] == '\n'
}

/// The style that `s` is rendered in.
pub open spec fn style_of(s: Seq<char>) -> ScalarStyle {
    if s.len() == 0 {
        ScalarStyle::DoubleQuoted
    } else if s.contains('\n') {
        if has_unprintable(s) || opens_with_blank(s) || ends_in_empty_line(s) {
            ScalarStyle::DoubleQuoted
        } else {
            ScalarStyle::LiteralBlock { chomp_strip: s.last() != '\n' }
        }
    } else if must_quote(s) {
        ScalarStyle::DoubleQuoted
    } else {
        ScalarStyle::Plain
    }
}

// ---- Rendering -------------------------------------------------------------

/// A lower-case hexadecimal digit.
pub open spec fn hex_char(d: u32) -> char {
    if d < 10 {
        (0x30 + d) as char
    } else {
        (0x57 + d) as char
    }
}

/// How one character stands inside double quotes.
pub open spec fn escaped_char(c: char) -> Seq<char> {
    let u = c as u32;
    if c == '"' {
        seq!['\\', '"']
    } else if c == '\\' {
        seq!['\\', '\\']
    } else if u == 0 {
        seq!['\\', '0']
    } else if u == 7 {
        seq!['\\', 'a']
    } else if u == 8 {
        seq!['\\', 'b']
    } else if u == 9 {
        seq!['\\', 't']
    } else if u == 10 {
        seq!['\\', 'n']
    } else if u == 11 {
        seq!['\\', 'v']
    } else if u == 12 {
        seq!['\\', 'f']
    } else if u == 13 {
        seq!['\\', 'r']
    } else if u == 27 {
        seq!['\\', 'e']
    } else if u < 32 || u == 127 {
        seq!['\\', 'x', hex_char(u / 16), hex_char(u % 16)]
    } else {
        seq![c]
    }
}

/// How a text stands inside double quotes.
pub open spec fn escaped(s: Seq<char>) -> Seq<char>
    decreases s.len(),
{
    if s.len() == 0 {
        seq![]
    } else {
        escaped_char(s[0]) + escaped(s.skip(1))
    }
}

/// The double-quoted form of `s`.
pub open spec fn quoted(s: Seq<char>) -> Seq<char> {
    seq!['"'] + escaped(s) + seq!['"']
}

/// `s` with `pad` put after every newline.
pub open spec fn indented(s: Seq<char>, pad: Seq<char>) -> Seq<char>
    decreases s.len(),
{
    if s.len() == 0 {
        seq![]
    } else if s[0] == '\n' {
        seq!['\n'] + pad + indented(s.skip(1), pad)
    } else {
        seq![s[0]] + indented(s.skip(1), pad)
    }
}

/// The literal block form of `s`: the header, then every line behind `indent` spaces.
pub open spec fn block(s: Seq<char>, indent: nat, chomp_strip: bool) -> Seq<char> {
    let header = if chomp_strip {
        seq!['|', '-', '\n']
    } else {
        seq!['|', '\n']
    };
    let body = if chomp_strip {
        s
    } else {
        without_trailing(s, '\n')
    };
    let pad = repeated(' ', indent);
    header + pad + indented(body, pad)
}

/// The text that stands for the value `s` in a document, `indent` being the column of its
/// continuation lines.
pub open spec fn rendered(s: Seq<char>, indent: nat) -> Seq<char> {
    match style_of(s) {
        ScalarStyle::Plain => s,
        ScalarStyle::DoubleQuoted => quoted(s),
        ScalarStyle::LiteralBlock { chomp_strip } => block(s, indent, chomp_strip),
    }
}

// ---- Executable ------------------------------------------------------------

fn is_digit_char(c: char) -> (b: bool)
    ensures
        b == is_digit(c),
{
    '0' <= c && c <= '9'
}

/// The index after the digits that begin at `i`.
fn skip_digits(chars: &Vec<char>, i: usize) -> (end: usize)
    requires
        i <= chars.len(),
    ensures
        end == i + digit_run(chars@, i as int),
        i <= end <= chars.len(),
{
    let mut k: usize = i;
    while k < chars.len() && is_digit_char(chars[k])
        invariant
            i <= k <= chars.len(),
            i + digit_run(chars@, i as int) == k + digit_run(chars@, k as int),
        decreases chars.len() - k,
    {
        k += 1;
    }
    k
}

fn skip_sign_char(chars: &Vec<char>, i: usize) -> (end: usize)
    requires
        i <= chars.len(),
    ensures
        end == skip_sign(chars@, i as int),
        i <= end <= chars.len(),
{
    if i < chars.len() && (chars[i] == '+' || chars[i] == '-') {
        i + 1
    } else {
        i
    }
}

/// Whether a decimal number fills `chars[i..]`.
fn number_from(chars: &Vec<char>, i: usize) -> (b: bool)
    requires
        i <= chars.len(),
    ensures
        b == is_number_from(chars@, i as int),
{
    let n: usize = chars.len();
    let whole: usize = skip_digits(chars, i);
    let mut end: usize = whole;
    let mut digits = whole > i;
    if whole < n && chars[whole] == '.' {
        end = skip_digits(chars, whole + 1);
        digits = digits || end > whole + 1;
    }
    if !digits {
        return false;
    }
    if end == n {
        return true;
    }
    if chars[end] != 'e' && chars[end] != 'E' {
        return false;
    }
    let power: usize = skip_sign_char(chars, end + 1);
    let last: usize = skip_digits(chars, power);
    last > power && last == n
}

/// ASCII lower case of one character.
fn lower_char(c: char) -> (l: char)
    ensures
        l == lower(c),
{
    if 'A' <= c && c <= 'Z' {
        let u: u8 = c as u8;
        (u + 32) as char
    } else {
        c
    }
}

/// ASCII lower case of `chars[from..]`.
fn lower_text(chars: &Vec<char>, from: usize) -> (out: String)
    requires
        from <= chars.len(),
    ensures
        out@ == lowered(chars@.skip(from as int)),
{
    let mut out = String::new();
    let mut i: usize = from;
    let ghost rest = chars@.skip(from as int);
    while i < chars.len()
        invariant
            from <= i <= chars.len(),
            rest == chars@.skip(from as int),
            out@ == lowered(rest.take(i - from)),
        decreases chars.len() - i,
    {
        proof {
            assert(rest.take(i + 1 - from) =~= rest.take(i - from).push(rest[i - from]));
            assert(lowered(rest.take(i + 1 - from)) =~= lowered(rest.take(i - from)).push(
                lower(rest[i - from]),
            ));
        }
        out.push(lower_char(chars[i]));
        i += 1;
    }
    proof {
        assert(rest.take(rest.len() as int) =~= rest);
    }
    out
}

/// Whether a number reader takes the whole text.
fn reads_as_float(chars: &Vec<char>) -> (b: bool)
    ensures
        b == is_float_text(chars@),
{
    let i: usize = skip_sign_char(chars, 0);
    let word = lower_text(chars, i);
    same_text(word.as_str(), "inf") || same_text(word.as_str(), "infinity") || same_text(
        word.as_str(),
        "nan",
    ) || number_from(chars, i)
}

fn is_hex_digit_char(c: char) -> (b: bool)
    ensures
        b == is_hex_digit(c),
{
    ('0' <= c && c <= '9') || ('a' <= c && c <= 'f') || ('A' <= c && c <= 'F')
}

/// Whether every character from `from` on is a hex digit or an underscore.
fn hex_tail(chars: &Vec<char>, from: usize) -> (b: bool)
    ensures
        b == forall|i: int|
            from <= i < chars.len() ==> is_hex_digit(#[trigger] chars@[i]) || chars@[i] == '_',
{
    let mut i: usize = from;
    while i < chars.len()
        invariant
            from <= i,
            forall|j: int|
                from <= j < i && j < chars.len() ==> is_hex_digit(#[trigger] chars@[j]) || chars@[j]
                    == '_',
        decreases chars.len() - i,
    {
        if !is_hex_digit_char(chars[i]) && chars[i] != '_' {
            return false;
        }
        i += 1;
    }
    true
}

fn is_yaml_extra_numeric(chars: &Vec<char>) -> (b: bool)
    ensures
        b == is_extra_numeric(chars@),
{
    proof {
        assert(chars@.skip(0) =~= chars@);
    }
    if chars.len() > 2 {
        let second = lower_char(chars[1]);
        proof {
            assert(lowered(chars@)[0] == lower(chars@[0]));
            assert(lowered(chars@)[1] == lower(chars@[1]));
        }
        if lower_char(chars[0]) == '0' && (second == 'x' || second == 'o' || second == 'b')
            && hex_tail(chars, 2) {
            return true;
        }
    }
    let low = lower_text(chars, 0);
    let low = low.as_str();
    same_text(low, ".inf") || same_text(low, ".nan") || same_text(low, "+.inf") || same_text(
        low,
        "-.inf",
    ) || same_text(low, "+.nan") || same_text(low, "-.nan")
}

fn reserved_word(value: &str) -> (b: bool)
    ensures
        b == is_reserved_word(value@),
{
    same_text(value, "true") || same_text(value, "false") || same_text(value, "null") || same_text(
        value,
        "True",
    ) || same_text(value, "False") || same_text(value, "Null") || same_text(value, "TRUE")
        || same_text(value, "FALSE") || same_text(value, "NULL") || same_text(value, "~")
}

fn indicator(c: char) -> (b: bool)
    ensures
        b == is_indicator(c),
{
    c == '-' || c == ':' || c == ',' || c == '[' || c == ']' || c == '{' || c == '}' || c == '#'
        || c == '&' || c == '*' || c == '!' || c == '|' || c == '>' || c == '\'' || c == '"' || c
        == '%' || c == '@' || c == '`'
}

/// Whether some character is a control character other than `except` and tab.
fn holds_control(chars: &Vec<char>, except: char) -> (b: bool)
    ensures
        b == exists|i: int|
            0 <= i < chars.len() && is_control_char(#[trigger] chars@[i]) && chars@[i] != except
                && chars@[i] != '\t',
{
    let mut i: usize = 0;
    while i < chars.len()
        invariant
            i <= chars.len(),
            forall|j: int|
                0 <= j < i ==> !(is_control_char(#[trigger] chars@[j]) && chars@[j] != except
                    && chars@[j] != '\t'),
        decreases chars.len() - i,
    {
        if is_control(chars[i]) && chars[i] != except && chars[i] != '\t' {
            return true;
        }
        i += 1;
    }
    false
}

fn needs_double_quoting(value: &str, chars: &Vec<char>) -> (b: bool)
    requires
        chars@ == value@,
        value@.len() > 0,
    ensures
        b == must_quote(value@),
{
    if reserved_word(value) || reads_as_float(chars) || is_yaml_extra_numeric(chars) {
        return true;
    }
    let first = chars[0];
    if indicator(first) {
        return true;
    }
    if first == '?' && (chars.len() == 1 || chars[1] == ' ' || chars[1] == '\t') {
        return true;
    }
    if is_space_char(first) {
        return true;
    }
    if contains_text(value, ": ") || contains_text(value, ":\t") || contains_text(value, " #")
        || contains_text(value, "\t#") {
        return true;
    }
    if holds_control(chars, '\t') {
        return true;
    }
    let last = chars[chars.len() - 1];
    last == ' ' || last == '\t' || last == ':'
}

/// Whether the first line that is not empty begins with a blank.
fn begins_with_blank(chars: &Vec<char>) -> (b: bool)
    ensures
        b == opens_with_blank(chars@),
{
    let mut i: usize = 0;
    while i < chars.len() && chars[i] == '\n'
        invariant
            i <= chars.len(),
            forall|j: int| 0 <= j < i ==> #[trigger] chars@[j] == '\n',
        decreases chars.len() - i,
    {
        i += 1;
    }
    i < chars.len() && (chars[i] == ' ' || chars[i] == '\t')
}

/// Whether the text has more than one line.
fn has_newline(chars: &Vec<char>) -> (b: bool)
    ensures
        b == chars@.contains('\n'),
{
    let mut i: usize = 0;
    while i < chars.len()
        invariant
            i <= chars.len(),
            forall|j: int| 0 <= j < i ==> #[trigger] chars@[j] != '\n',
        decreases chars.len() - i,
    {
        if chars[i] == '\n' {
            return true;
        }
        i += 1;
    }
    false
}

/// Chooses the style of a value.
pub fn scalar_style(value: &str) -> (style: ScalarStyle)
    ensures
        style == style_of(value@),
{
    let chars = to_chars(value);
    if chars.len() == 0 {
        return ScalarStyle::DoubleQuoted;
    }
    if has_newline(&chars) {
        if holds_control(&chars, '\n') {
            return ScalarStyle::DoubleQuoted;
        }
        if begins_with_blank(&chars) {
            return ScalarStyle::DoubleQuoted;
        }
        let n: usize = chars.len();
        let chomp_strip = chars[n - 1] != '\n';
        if !chomp_strip && (n == 1 || chars[n - 2] == '\n') {
            return ScalarStyle::DoubleQuoted;
        }
        return ScalarStyle::LiteralBlock { chomp_strip };
    }
    if needs_double_quoting(value, &chars) {
        ScalarStyle::DoubleQuoted
    } else {
        ScalarStyle::Plain
    }
}

/// Renders a value in the style that suits it.
pub fn render_scalar(value: &str, indent: usize) -> (out: String)
    ensures
        out@ == rendered(value@, indent as nat),
{
    match scalar_style(value) {
        ScalarStyle::Plain => value.to_owned(),
        ScalarStyle::DoubleQuoted => double_quote(value),
        ScalarStyle::LiteralBlock { chomp_strip } => literal_block(value, indent, chomp_strip),
    }
}

fn hex_digit(d: u32) -> (c: char)
    requires
        d < 16,
    ensures
        c == hex_char(d),
{
    if d < 10 {
        (0x30 + d as u8) as char
    } else {
        (0x57 + d as u8) as char
    }
}

/// Appends the escaped form of `c`.
fn push_escaped(out: &mut String, c: char)
    ensures
        final(out)@ == old(out)@ + escaped_char(c),
{
    let u: u32 = c as u32;
    let ghost before = out@;
    let named: Option<char> = if c == '"' {
        Some('"')
    } else if c == '\\' {
        Some('\\')
    } else if u == 0 {
        Some('0')
    } else if u == 7 {
        Some('a')
    } else if u == 8 {
        Some('b')
    } else if u == 9 {
        Some('t')
    } else if u == 10 {
        Some('n')
    } else if u == 11 {
        Some('v')
    } else if u == 12 {
        Some('f')
    } else if u == 13 {
        Some('r')
    } else if u == 27 {
        Some('e')
    } else {
        None
    };
    match named {
        Some(letter) => {
            out.push('\\');
            out.push(letter);
            proof {
                assert(out@ =~= before + seq!['\\', letter]);
            }
        },
        None => {
            if u < 32 || u == 127 {
                out.push('\\');
                out.push('x');
                out.push(hex_digit(u / 16));
                out.push(hex_digit(u % 16));
                proof {
                    assert(out@ =~= before + seq![
                        '\\',
                        'x',
                        hex_char(u / 16),
                        hex_char(u % 16),
                    ]);
                }
            } else {
                out.push(c);
                proof {
                    assert(out@ =~= before + seq![c]);
                }
            }
        },
    }
}

/// Double-quoted YAML string with named escapes.
pub fn double_quote(value: &str) -> (out: String)
    ensures
        out@ == quoted(value@),
{
    let chars = to_chars(value);
    let mut out = String::new();
    out.push('"');
    let mut i: usize = 0;
    proof {
        assert(value@.skip(0) =~= value@);
        assert(out@ =~= seq!['"']);
    }
    while i < chars.len()
        invariant
            chars@ == value@,
            i <= chars.len(),
            out@ + escaped(value@.skip(i as int)) == seq!['"'] + escaped(value@),
        decreases chars.len() - i,
    {
        let ghost rest = value@.skip(i as int);
        let ghost before = out@;
        push_escaped(&mut out, chars[i]);
        proof {
            assert(rest.skip(1) =~= value@.skip(i + 1));
            assert(out@ + escaped(rest.skip(1)) =~= before + (escaped_char(rest[0]) + escaped(
                rest.skip(1),
            )));
        }
        i += 1;
    }
    proof {
        assert(out@ + escaped(value@.skip(i as int)) =~= out@);
    }
    out.push('"');
    proof {
        assert(out@ =~= quoted(value@));
    }
    out
}

/// Appends `n` spaces.
fn push_spaces(out: &mut String, n: usize)
    ensures
        final(out)@ == old(out)@ + repeated(' ', n as nat),
{
    let ghost before = out@;
    let mut i: usize = 0;
    proof {
        assert(before + repeated(' ', 0) =~= before);
    }
    while i < n
        invariant
            i <= n,
            out@ == before + repeated(' ', i as nat),
        decreases n - i,
    {
        out.push(' ');
        proof {
            assert(before + repeated(' ', (i + 1) as nat) =~= (before + repeated(
                ' ',
                i as nat,
            )).push(' '));
        }
        i += 1;
    }
}

/// Literal block scalar. Each line is indented by `indent` spaces. `chomp_strip` selects `|-` (no
/// trailing newline) or `|`.
fn literal_block(value: &str, indent: usize, chomp_strip: bool) -> (out: String)
    ensures
        out@ == block(value@, indent as nat, chomp_strip),
{
    let chars = to_chars(value);
    let mut end: usize = chars.len();
    let mut out = String::new();
    proof {
        assert(value@.take(end as int) =~= value@);
    }
    if chomp_strip {
        out.push('|');
        out.push('-');
        out.push('\n');
    } else {
        out.push('|');
        out.push('\n');
        while end > 0 && chars[end - 1] == '\n'
            invariant
                chars@ == value@,
                end <= chars.len(),
                without_trailing(value@.take(end as int), '\n') == without_trailing(value@, '\n'),
            decreases end,
        {
            proof {
                assert(value@.take(end as int).drop_last() =~= value@.take(end - 1));
            }
            end -= 1;
        }
    }
    let ghost header = out@;
    let ghost pad = repeated(' ', indent as nat);
    let ghost body = value@.take(end as int);
    push_spaces(&mut out, indent);
    let mut i: usize = 0;
    proof {
        assert(header =~= if chomp_strip {
            seq!['|', '-', '\n']
        } else {
            seq!['|', '\n']
        });
        assert(body.skip(0) =~= body);
    }
    while i < end
        invariant
            chars@ == value@,
            i <= end <= chars.len(),
            body == value@.take(end as int),
            pad == repeated(' ', indent as nat),
            out@ + indented(body.skip(i as int), pad) == header + pad + indented(body, pad),
        decreases end - i,
    {
        let ghost rest = body.skip(i as int);
        let ghost before = out@;
        let c = chars[i];
        out.push(c);
        proof {
            assert(rest.skip(1) =~= body.skip(i + 1));
        }
        if c == '\n' {
            push_spaces(&mut out, indent);
            proof {
                assert(out@ + indented(rest.skip(1), pad) =~= before + (seq!['\n'] + pad + indented(
                    rest.skip(1),
                    pad,
                )));
            }
        } else {
            proof {
                assert(out@ + indented(rest.skip(1), pad) =~= before + (seq![rest[0]] + indented(
                    rest.skip(1),
                    pad,
                )));
            }
        }
        i += 1;
    }
    proof {
        assert(body.skip(i as int) =~= seq![]);
        assert(out@ + indented(body.skip(i as int), pad) =~= out@);
    }
    out
}

// ---- Laws ------------------------------------------------------------------

/// The escaped forms of two characters, each followed by anything, are told apart by their
/// beginning.
proof fn lemma_escape_is_prefix_free(c: char, x: Seq<char>, d: char, y: Seq<char>)
    requires
        escaped_char(c) + x == escaped_char(d) + y,
    ensures
        c == d,
        x == y,
{
    let e = escaped_char(c);
    let f = escaped_char(d);
    let whole = e + x;
    assert(whole == f + y);
    assert(e.len() >= 1 && f.len() >= 1);
    assert(whole[0] == e[0] && whole[0] == f[0]);
    if e.len() >= 2 && f.len() >= 2 {
        assert(whole[1] == e[1] && whole[1] == f[1]);
    }
    if e.len() >= 4 && f.len() >= 4 {
        assert(whole[2] == e[2] && whole[2] == f[2]);
        assert(whole[3] == e[3] && whole[3] == f[3]);
    }
    assert(c == d);
    assert(x =~= whole.skip(e.len() as int));
    assert(y =~= whole.skip(f.len() as int));
}

/// No two values have the same double-quoted form.
pub proof fn law_double_quoting_is_injective(a: Seq<char>, b: Seq<char>)
    requires
        quoted(a) == quoted(b),
    ensures
        a == b,
{
    assert(escaped(a) =~= quoted(a).subrange(1, quoted(a).len() - 1));
    assert(escaped(b) =~= quoted(b).subrange(1, quoted(b).len() - 1));
    lemma_escaped_is_injective(a, b);
}

proof fn lemma_escaped_is_injective(a: Seq<char>, b: Seq<char>)
    requires
        escaped(a) == escaped(b),
    ensures
        a == b,
    decreases a.len(),
{
    if a.len() > 0 && b.len() > 0 {
        lemma_escape_is_prefix_free(a[0], escaped(a.skip(1)), b[0], escaped(b.skip(1)));
        lemma_escaped_is_injective(a.skip(1), b.skip(1));
        assert(a =~= seq![a[0]] + a.skip(1));
        assert(b =~= seq![b[0]] + b.skip(1));
    } else if a.len() > 0 {
        assert(escaped(a).len() >= escaped_char(a[0]).len() > 0);
    } else if b.len() > 0 {
        assert(escaped(b).len() >= escaped_char(b[0]).len() > 0);
    } else {
        assert(a =~= b);
    }
}

/// A double-quoted scalar holds no ASCII control character; in particular it stays on one line.
pub proof fn law_double_quoted_is_printable(s: Seq<char>, i: int)
    requires
        0 <= i < quoted(s).len(),
    ensures
        quoted(s)[i] as u32 >= 32,
        quoted(s)[i] as u32 != 127,
{
    lemma_escaped_is_printable(s);
    if 0 < i < quoted(s).len() - 1 {
        assert(quoted(s)[i] == escaped(s)[i - 1]);
    }
}

proof fn lemma_escaped_is_printable(s: Seq<char>)
    ensures
        forall|i: int|
            0 <= i < escaped(s).len() ==> #[trigger] escaped(s)[i] as u32 >= 32 && escaped(
                s,
            )[i] as u32 != 127,
    decreases s.len(),
{
    if s.len() > 0 {
        let head = escaped_char(s[0]);
        let tail = escaped(s.skip(1));
        lemma_escaped_is_printable(s.skip(1));
        assert forall|i: int| 0 <= i < escaped(s).len() implies #[trigger] escaped(s)[i] as u32
            >= 32 && escaped(s)[i] as u32 != 127 by {
            if i >= head.len() {
                assert(escaped(s)[i] == tail[i - head.len()]);
            } else {
                assert(escaped(s)[i] == head[i]);
            }
        }
    }
}

/// A scalar that is not a literal block stands on one line.
pub proof fn law_inline_scalar_is_one_line(s: Seq<char>, indent: nat)
    requires
        !(style_of(s) is LiteralBlock),
    ensures
        !rendered(s, indent).contains('\n'),
{
    if style_of(s) is DoubleQuoted {
        if rendered(s, indent).contains('\n') {
            let i = choose|i: int| 0 <= i < quoted(s).len() && quoted(s)[i] == '\n';
            law_double_quoted_is_printable(s, i);
        }
    }
}

/// In a literal block every line after the header begins with the indentation.
pub proof fn law_block_lines_are_indented(s: Seq<char>, indent: nat, chomp_strip: bool, i: int)
    requires
        0 <= i < block(s, indent, chomp_strip).len(),
        block(s, indent, chomp_strip)[i] == '\n',
    ensures
        occurs_at(block(s, indent, chomp_strip), repeated(' ', indent), i + 1),
{
    let header = if chomp_strip {
        seq!['|', '-', '\n']
    } else {
        seq!['|', '\n']
    };
    let body = if chomp_strip {
        s
    } else {
        without_trailing(s, '\n')
    };
    let pad = repeated(' ', indent);
    let out = block(s, indent, chomp_strip);
    let h = header.len() as int;
    if i < h {
        assert(out[i] == header[i]);
        assert(i == h - 1);
        assert(out.subrange(h, h + indent) =~= pad);
    } else if i < h + indent {
        assert(out[i] == pad[i - h]);
    } else {
        let k = i - h - indent;
        assert(out[i] == indented(body, pad)[k]);
        lemma_indented_lines(body, pad, k);
        assert(out.subrange(i + 1, i + 1 + indent) =~= indented(body, pad).subrange(
            k + 1,
            k + 1 + indent,
        ));
    }
}

proof fn lemma_indented_is_injective(a: Seq<char>, b: Seq<char>, pad: Seq<char>)
    requires
        indented(a, pad) == indented(b, pad),
    ensures
        a == b,
    decreases a.len(),
{
    let x = indented(a, pad);
    let y = indented(b, pad);
    if a.len() > 0 && b.len() > 0 {
        assert(x[0] == a[0] && y[0] == b[0]);
        let n = if a[0] == '\n' {
            1 + pad.len() as int
        } else {
            1
        };
        assert(indented(a.skip(1), pad) =~= x.skip(n));
        assert(indented(b.skip(1), pad) =~= y.skip(n));
        lemma_indented_is_injective(a.skip(1), b.skip(1), pad);
        assert(a =~= seq![a[0]] + a.skip(1));
        assert(b =~= seq![b[0]] + b.skip(1));
    } else if a.len() > 0 {
        assert(x.len() > 0);
    } else if b.len() > 0 {
        assert(y.len() > 0);
    } else {
        assert(a =~= b);
    }
}

proof fn lemma_one_newline_dropped(s: Seq<char>)
    requires
        s.len() > 0,
        s.last() == '\n',
        !ends_in_empty_line(s),
    ensures
        without_trailing(s, '\n') == s.drop_last(),
{
    let rest = s.drop_last();
    assert(rest.last() == s[s.len() - 2]);
    reveal_with_fuel(without_trailing, 3);
}

/// No two values are rendered alike in one place: what is written can be read back.
pub proof fn law_rendering_is_injective(a: Seq<char>, b: Seq<char>, indent: nat)
    requires
        rendered(a, indent) == rendered(b, indent),
    ensures
        a == b,
{
    let x = rendered(a, indent);
    let y = rendered(b, indent);
    let pad = repeated(' ', indent);
    match (style_of(a), style_of(b)) {
        (ScalarStyle::Plain, ScalarStyle::Plain) => {},
        (ScalarStyle::DoubleQuoted, ScalarStyle::DoubleQuoted) => {
            law_double_quoting_is_injective(a, b);
        },
        (
            ScalarStyle::LiteralBlock { chomp_strip: c },
            ScalarStyle::LiteralBlock { chomp_strip: d },
        ) => {
            assert(x[1] == if c { '-' } else { '\n' });
            assert(y[1] == if d { '-' } else { '\n' });
            assert(c == d);
            let n = (if c { 3int } else { 2int }) + indent;
            let body_a = if c { a } else { without_trailing(a, '\n') };
            let body_b = if c { b } else { without_trailing(b, '\n') };
            assert(indented(body_a, pad) =~= x.skip(n));
            assert(indented(body_b, pad) =~= y.skip(n));
            lemma_indented_is_injective(body_a, body_b, pad);
            if !c {
                lemma_one_newline_dropped(a);
                lemma_one_newline_dropped(b);
                assert(a =~= body_a.push('\n'));
                assert(b =~= body_b.push('\n'));
            }
        },
        _ => {
            assert(style_of(a) is Plain ==> !is_indicator(x[0]));
            assert(style_of(b) is Plain ==> !is_indicator(y[0]));
            assert(style_of(a) is DoubleQuoted ==> x[0] == '"');
            assert(style_of(b) is DoubleQuoted ==> y[0] == '"');
            assert(style_of(a) is LiteralBlock ==> x[0] == '|');
            assert(style_of(b) is LiteralBlock ==> y[0] == '|');
        },
    }
}

proof fn lemma_indented_lines(s: Seq<char>, pad: Seq<char>, i: int)
    requires
        forall|k: int| 0 <= k < pad.len() ==> #[trigger] pad[k] == ' ',
        0 <= i < indented(s, pad).len(),
        indented(s, pad)[i] == '\n',
    ensures
        occurs_at(indented(s, pad), pad, i + 1),
    decreases s.len(),
{
    let out = indented(s, pad);
    let rest = indented(s.skip(1), pad);
    if s[0] == '\n' {
        let n = 1 + pad.len();
        if i == 0 {
            assert(out.subrange(1, 1 + pad.len() as int) =~= pad);
        } else if i < n {
            assert(out[i] == pad[i - 1]);
        } else {
            assert(out[i] == rest[i - n]);
            lemma_indented_lines(s.skip(1), pad, i - n);
            assert(out.subrange(i + 1, i + 1 + pad.len()) =~= rest.subrange(
                i - n + 1,
                i - n + 1 + pad.len(),
            ));
        }
    } else {
        if i == 0 {
            assert(out[0] == s[0]);
        } else {
            assert(out[i] == rest[i - 1]);
            lemma_indented_lines(s.skip(1), pad, i - 1);
            assert(out.subrange(i + 1, i + 1 + pad.len()) =~= rest.subrange(
                i,
                i + pad.len(),
            ));
        }
    }
}

/// The character that a single letter behind a backslash stands for.
pub open spec fn named_escape(c: char) -> char {
    if c == '0' {
        0u32 as char
    } else if c == 'a' {
        7u32 as char
    } else if c == 'b' {
        8u32 as char
    } else if c == 't' {
        '\t'
    } else if c == 'n' {
        '\n'
    } else if c == 'v' {
        11u32 as char
    } else if c == 'f' {
        12u32 as char
    } else if c == 'r' {
        '\r'
    } else if c == 'e' {
        27u32 as char
    } else {
        c
    }
}

/// The value of a hexadecimal digit.
pub open spec fn digit_value(c: char) -> int {
    if '0' <= c <= '9' {
        c as int - 0x30
    } else {
        c as int - 0x57
    }
}

/// What a reader makes of the text between double quotes.
pub open spec fn unescaped(t: Seq<char>) -> Seq<char>
    decreases t.len(),
{
    if t.len() == 0 {
        seq![]
    } else if t[0] != '\\' {
        seq![t[0]] + unescaped(t.skip(1))
    } else if t[1] == 'x' {
        if t.len() >= 4 {
            seq![(16 * digit_value(t[2]) + digit_value(t[3])) as char] + unescaped(t.skip(4))
        } else {
            seq![]
        }
    } else if t.len() >= 2 {
        seq![named_escape(t[1])] + unescaped(t.skip(2))
    } else {
        seq![]
    }
}

proof fn lemma_unescaped_step(c: char, rest: Seq<char>)
    ensures
        unescaped(escaped_char(c) + rest) == seq![c] + unescaped(rest),
{
    let e = escaped_char(c);
    let t = e + rest;
    let u = c as u32;
    if e.len() == 1 {
        assert(t.skip(1) =~= rest);
        assert(t[0] == c);
    } else if e.len() == 2 {
        assert(t[0] == '\\');
        assert(t[1] == e[1]);
        assert(t.skip(2) =~= rest);
        assert(named_escape(e[1]) == c);
    } else {
        assert(t[0] == '\\' && t[1] == 'x' && t[2] == e[2] && t[3] == e[3]);
        assert(t.skip(4) =~= rest);
        assert(e[2] == hex_char(u / 16) && e[3] == hex_char(u % 16));
        assert(digit_value(hex_char(u / 16)) == u / 16);
        assert(digit_value(hex_char(u % 16)) == u % 16);
        assert(16 * (u / 16) + u % 16 == u);
    }
}

/// A reader makes of a double-quoted text what was written.
pub proof fn law_double_quoted_reads_back(value: &str, out: String)
    requires
        call_ensures(double_quote, (value,), out),
    ensures
        out@.len() >= 2,
        out@[0] == '"',
        out@.last() == '"',
        unescaped(out@.subrange(1, out@.len() - 1)) == value@,
{
    assert(out@.subrange(1, out@.len() - 1) =~= escaped(value@));
    lemma_unescaped(value@);
}

proof fn lemma_unescaped(s: Seq<char>)
    ensures
        unescaped(escaped(s)) == s,
    decreases s.len(),
{
    if s.len() > 0 {
        lemma_unescaped(s.skip(1));
        lemma_unescaped_step(s[0], escaped(s.skip(1)));
        assert(seq![s[0]] + s.skip(1) =~= s);
    }
}

/// What a reader makes of the lines of a block, which are indented by `n` characters.
pub open spec fn unindented(t: Seq<char>, n: nat) -> Seq<char>
    decreases t.len(),
{
    if t.len() == 0 {
        seq![]
    } else if t[0] == '\n' && t.len() >= n + 1 {
        seq!['\n'] + unindented(t.skip(n as int + 1), n)
    } else {
        seq![t[0]] + unindented(t.skip(1), n)
    }
}

proof fn lemma_unindented(s: Seq<char>, n: nat)
    ensures
        unindented(indented(s, repeated(' ', n)), n) == s,
    decreases s.len(),
{
    let pad = repeated(' ', n);
    let t = indented(s, pad);
    if s.len() > 0 {
        let rest = s.skip(1);
        lemma_unindented(rest, n);
        if s[0] == '\n' {
            assert(t[0] == '\n');
            assert(t.skip(n as int + 1) =~= indented(rest, pad));
        } else {
            assert(t[0] == s[0]);
            assert(t.skip(1) =~= indented(rest, pad));
        }
        assert(seq![s[0]] + rest =~= s);
    }
}

/// A reader makes of a block what was written: its lines without their indentation, and a line break
/// behind the last one unless the header takes it away.
pub proof fn law_blocks_read_back(value: &str, indent: usize, out: String)
    requires
        call_ensures(render_scalar, (value, indent), out),
        style_of(value@) is LiteralBlock,
    ensures
        ({
            let s = value@;
            let strips = s.last() != '\n';
            let head = if strips {
                seq!['|', '-', '\n']
            } else {
                seq!['|', '\n']
            };
            let lines = out@.skip(head.len() as int + indent);
            &&& out@.take(head.len() as int) == head
            &&& unindented(lines, indent as nat) + (if strips {
                Seq::<char>::empty()
            } else {
                seq!['\n']
            }) == s
        }),
{
    let s = value@;
    let pad = repeated(' ', indent as nat);
    if s.last() != '\n' {
        let head = seq!['|', '-', '\n'];
        lemma_unindented(s, indent as nat);
        assert(out@.skip(3 + indent) =~= indented(s, pad));
        assert(out@.take(3) =~= head);
        assert(s + Seq::<char>::empty() =~= s);
    } else {
        let head = seq!['|', '\n'];
        lemma_one_newline_dropped(s);
        lemma_unindented(s.drop_last(), indent as nat);
        assert(out@.skip(2 + indent) =~= indented(s.drop_last(), pad));
        assert(out@.take(2) =~= head);
        assert(s.drop_last() + seq!['\n'] =~= s);
    }
}

/// Text of several lines is a block, unless it holds what no block can: other control characters, a
/// blank at the beginning of its first line that is not empty, or an empty line at its end.
pub proof fn law_texts_of_several_lines_are_blocks(value: &str, style: ScalarStyle)
    requires
        call_ensures(scalar_style, (value,), style),
        value@.contains('\n'),
    ensures
        ({
            let s = value@;
            let n = s.len() as int;
            let unfit = {
                ||| exists|i: int|
                    0 <= i < n && is_control_char(#[trigger] s[i]) && s[i] != '\n' && s[i] != '\t'
                ||| exists|i: int|
                    0 <= i < n && (#[trigger] s[i] == ' ' || s[i] == '\t') && forall|j: int|
                        0 <= j < i ==> #[trigger] s[j] == '\n'
                ||| s[n - 1] == '\n' && (n == 1 || s[n - 2] == '\n')
            };
            &&& unfit ==> style == ScalarStyle::DoubleQuoted
            &&& !unfit && s[n - 1] == '\n' ==> style == ScalarStyle::LiteralBlock {
                chomp_strip: false,
            }
            &&& !unfit && s[n - 1] != '\n' ==> style == ScalarStyle::LiteralBlock {
                chomp_strip: true,
            }
        }),
{
}

proof fn lemma_digit_run(s: Seq<char>, i: int, n: int)
    requires
        0 <= i,
        0 <= n,
        i + n <= s.len(),
        forall|k: int| i <= k < i + n ==> is_digit(#[trigger] s[k]),
        i + n < s.len() ==> !is_digit(s[i + n]),
    ensures
        digit_run(s, i) == n,
    decreases n,
{
    if n > 0 {
        assert(is_digit(s[i]));
        lemma_digit_run(s, i + 1, n - 1);
    }
}

/// Whether a text is made of decimal digits.
pub open spec fn all_digits(s: Seq<char>) -> bool {
    forall|i: int| 0 <= i < s.len() ==> '0' <= #[trigger] s[i] <= '9'
}

/// Text that reads as a decimal number is quoted: a sign or none, digits with or without a point
/// among them, and an exponent or none.
pub proof fn law_numbers_are_quoted(
    sign: Seq<char>,
    whole: Seq<char>,
    point: Seq<char>,
    fraction: Seq<char>,
    mark: Seq<char>,
    power: Seq<char>,
)
    requires
        sign.len() == 0 || sign == seq!['+'] || sign == seq!['-'],
        all_digits(whole) && all_digits(fraction) && all_digits(power),
        point == seq!['.'] || (point.len() == 0 && fraction.len() == 0),
        whole.len() + fraction.len() > 0,
        (mark.len() == 0 && power.len() == 0) || ((mark == seq!['e'] || mark == seq!['E'] || mark
            == seq!['e', '-'] || mark == seq!['e', '+'] || mark == seq!['E', '-'] || mark
            == seq!['E', '+']) && power.len() > 0),
    ensures
        style_of(sign + (whole + point + fraction + mark + power)) == ScalarStyle::DoubleQuoted,
{
    let s = sign + (whole + point + fraction + mark + power);
    let i = sign.len() as int;
    let w = i + whole.len();
    let m = w + point.len();
    let f = m + fraction.len();
    let p = f + mark.len();
    assert(s.len() == p + power.len());
    assert forall|k: int| 0 <= k < s.len() implies number_part(
        sign,
        whole,
        point,
        fraction,
        mark,
        power,
        k,
        #[trigger] s[k],
    ) by {
        lemma_number_part(sign, whole, point, fraction, mark, power, k);
    }
    lemma_reads_as_number(s, i, w, m, f, p);
    assert(!s.contains('\n')) by {
        if s.contains('\n') {
            let k = choose|k: int| 0 <= k < s.len() && s[k] == '\n';
            assert(number_part(sign, whole, point, fraction, mark, power, k, s[k]));
        }
    }
}

/// What character stands where in a number that is put together from its parts.
spec fn number_part(
    sign: Seq<char>,
    whole: Seq<char>,
    point: Seq<char>,
    fraction: Seq<char>,
    mark: Seq<char>,
    power: Seq<char>,
    k: int,
    c: char,
) -> bool {
    let i = sign.len() as int;
    let w = i + whole.len();
    let m = w + point.len();
    let f = m + fraction.len();
    let p = f + mark.len();
    if k < i {
        is_sign(c)
    } else if k < w {
        is_digit(c)
    } else if k < m {
        c == '.'
    } else if k < f {
        is_digit(c)
    } else if k == f && k < p {
        c == 'e' || c == 'E'
    } else if k < p {
        is_sign(c)
    } else {
        is_digit(c)
    }
}

proof fn lemma_reads_as_number(s: Seq<char>, i: int, w: int, m: int, f: int, p: int)
    requires
        0 <= i <= w <= m <= f <= p <= s.len(),
        i <= 1,
        m - w <= 1,
        p - f <= 2,
        (w - i) + (f - m) > 0,
        m == w ==> f == m,
        p == f ==> p == s.len(),
        p > f ==> p < s.len(),
        i == 1 ==> is_sign(s[0]),
        forall|k: int| i <= k < w ==> is_digit(#[trigger] s[k]),
        m > w ==> s[w] == '.',
        forall|k: int| m <= k < f ==> is_digit(#[trigger] s[k]),
        p > f ==> s[f] == 'e' || s[f] == 'E',
        p == f + 2 ==> is_sign(s[f + 1]),
        forall|k: int| p <= k < s.len() ==> is_digit(#[trigger] s[k]),
    ensures
        is_float_text(s),
{
    if i < w {
        assert(is_digit(s[i]));
    }
    assert(skip_sign(s, 0) == i);
    lemma_digit_run(s, i, w - i);
    if m > w {
        lemma_digit_run(s, m, f - m);
    }
    assert(mantissa_end(s, i) == f);
    if p > f {
        assert(is_digit(s[p]));
        assert(skip_sign(s, f + 1) == p);
        lemma_digit_run(s, p, s.len() - p);
    }
}

proof fn lemma_number_part(
    sign: Seq<char>,
    whole: Seq<char>,
    point: Seq<char>,
    fraction: Seq<char>,
    mark: Seq<char>,
    power: Seq<char>,
    k: int,
)
    requires
        sign.len() == 0 || sign == seq!['+'] || sign == seq!['-'],
        all_digits(whole) && all_digits(fraction) && all_digits(power),
        point == seq!['.'] || point.len() == 0,
        mark.len() == 0 || mark == seq!['e'] || mark == seq!['E'] || mark == seq!['e', '-'] || mark
            == seq!['e', '+'] || mark == seq!['E', '-'] || mark == seq!['E', '+'],
        0 <= k < (sign + (whole + point + fraction + mark + power)).len(),
    ensures
        number_part(
            sign,
            whole,
            point,
            fraction,
            mark,
            power,
            k,
            (sign + (whole + point + fraction + mark + power))[k],
        ),
{
    let s = sign + (whole + point + fraction + mark + power);
    let a = sign.len() as int;
    let b = a + whole.len();
    let c = b + point.len();
    let d = c + fraction.len();
    let e = d + mark.len();
    if k < a {
        assert(s[k] == sign[k]);
    } else if k < b {
        assert(s[k] == whole[k - a]);
    } else if k < c {
        assert(s[k] == point[k - b]);
    } else if k < d {
        assert(s[k] == fraction[k - c]);
    } else if k < e {
        assert(s[k] == mark[k - d]);
    } else {
        assert(s[k] == power[k - e]);
    }
}

/// Whether a text is made of Latin letters.
pub open spec fn all_letters(s: Seq<char>) -> bool {
    forall|i: int| 0 <= i < s.len() ==> 'a' <= #[trigger] s[i] <= 'z' || 'A' <= s[i] <= 'Z'
}

/// A word of Latin letters stays as it is, unless it reads as a truth value, as nothing or as a
/// number.
pub proof fn law_words_stay_plain(s: Seq<char>)
    requires
        s.len() > 0,
        all_letters(s),
        s != "true"@ && s != "True"@ && s != "TRUE"@,
        s != "false"@ && s != "False"@ && s != "FALSE"@,
        s != "null"@ && s != "Null"@ && s != "NULL"@,
        lowered(s) != "inf"@ && lowered(s) != "infinity"@ && lowered(s) != "nan"@,
    ensures
        style_of(s) == ScalarStyle::Plain,
        rendered(s, 0) == s,
{
    reveal_strlit("~");
    reveal_strlit(": ");
    reveal_strlit(":\t");
    reveal_strlit(" #");
    reveal_strlit("\t#");
    reveal_strlit(".inf");
    reveal_strlit(".nan");
    reveal_strlit("+.inf");
    reveal_strlit("-.inf");
    reveal_strlit("+.nan");
    reveal_strlit("-.nan");
    assert('a' <= s[0] <= 'z' || 'A' <= s[0] <= 'Z');
    assert(s.skip(0) =~= s);
    assert(lowered(s)[0] == lower(s[0]));
    lemma_digit_run(s, 0, 0);
    assert(!is_number_from(s, 0));
    assert(!is_float_text(s));
    assert(!is_extra_numeric(s));
    lemma_letters_hold_no_mark(s, ": "@, 0);
    lemma_letters_hold_no_mark(s, ":\t"@, 0);
    lemma_letters_hold_no_mark(s, " #"@, 0);
    lemma_letters_hold_no_mark(s, "\t#"@, 0);
    assert('a' <= s[s.len() - 1] <= 'z' || 'A' <= s[s.len() - 1] <= 'Z');
    assert(!s.contains('\n')) by {
        if s.contains('\n') {
            let k = choose|k: int| 0 <= k < s.len() && s[k] == '\n';
            assert('a' <= s[k] <= 'z' || 'A' <= s[k] <= 'Z');
        }
    }
}

proof fn lemma_letters_hold_no_mark(s: Seq<char>, mark: Seq<char>, k: int)
    requires
        all_letters(s),
        0 <= k < mark.len(),
        !('a' <= mark[k] <= 'z' || 'A' <= mark[k] <= 'Z'),
    ensures
        !occurs_in(s, mark),
{
    if occurs_in(s, mark) {
        let at = choose|at: int| #[trigger] occurs_at(s, mark, at);
        assert(s.subrange(at, at + mark.len())[k] == mark[k]);
        assert(s[at + k] == mark[k]);
    }
}

/// What would not read back as the same text in one line is quoted: nothing at all, what reads as a
/// truth value or as nothing, what begins with a mark of the notation, and what holds or ends in one
/// that would end it early.
pub proof fn law_what_would_not_read_back_is_quoted(value: &str, style: ScalarStyle)
    requires
        call_ensures(scalar_style, (value,), style),
        !value@.contains('\n'),
    ensures
        ({
            let s = value@;
            let n = s.len() as int;
            &&& n == 0 ==> style == ScalarStyle::DoubleQuoted
            &&& n > 0 ==> (style == ScalarStyle::DoubleQuoted || style == ScalarStyle::Plain)
            &&& s == "true"@ || s == "false"@ || s == "null"@ || s == "~"@ ==> style
                == ScalarStyle::DoubleQuoted
            &&& n > 0 && "-:,[]{}#&*!|>'\"%@`"@.contains(s[0]) ==> style
                == ScalarStyle::DoubleQuoted
            &&& n > 0 && (s[0] == ' ' || s[0] == '\t' || s[n - 1] == ' ' || s[n - 1] == '\t' || s[n
                - 1] == ':') ==> style == ScalarStyle::DoubleQuoted
            &&& occurs_in(s, ": "@) || occurs_in(s, " #"@) || occurs_in(s, ":\t"@) || occurs_in(
                s,
                "\t#"@,
            ) ==> style == ScalarStyle::DoubleQuoted
            &&& (exists|i: int|
                0 <= i < n && is_control_char(#[trigger] s[i]) && s[i] != '\t') ==> style
                == ScalarStyle::DoubleQuoted
        }),
{
    let s = value@;
    reveal_strlit("-:,[]{}#&*!|>'\"%@`");
    let marks = "-:,[]{}#&*!|>'\"%@`"@;
    if s.len() > 0 && marks.contains(s[0]) {
        let k = choose|k: int| 0 <= k < marks.len() && marks[k] == s[0];
        assert(is_indicator(marks[k]));
    }
    if s.len() == 0 {
        reveal_strlit(": ");
        reveal_strlit(" #");
        reveal_strlit(":\t");
        reveal_strlit("\t#");
    }
}

/// What other readers take for a number is quoted: numbers to the bases sixteen, eight and two, and
/// the names of what is infinite or no number, with or without a sign or a point before them and in
/// any case.
pub proof fn law_numbers_of_other_readers_are_quoted(
    prefix: Seq<char>,
    digits: Seq<char>,
    sign: Seq<char>,
    word: Seq<char>,
)
    requires
        prefix == "0x"@ || prefix == "0X"@ || prefix == "0o"@ || prefix == "0O"@ || prefix == "0b"@
            || prefix == "0B"@,
        digits.len() > 0,
        forall|i: int|
            0 <= i < digits.len() ==> '0' <= #[trigger] digits[i] <= '9' || 'a' <= digits[i] <= 'f'
                || 'A' <= digits[i] <= 'F' || digits[i] == '_',
        sign.len() == 0 || sign == "+"@ || sign == "-"@,
        lowered(word) == "inf"@ || lowered(word) == "nan"@ || lowered(word) == "infinity"@,
    ensures
        style_of(prefix + digits) == ScalarStyle::DoubleQuoted,
        style_of(sign + word) == ScalarStyle::DoubleQuoted,
        lowered(word) != "infinity"@ ==> style_of(sign + ("."@ + word))
            == ScalarStyle::DoubleQuoted,
{
    lemma_based_numbers_are_quoted(prefix, digits);
    lemma_named_numbers_are_quoted(sign, word);
    if lowered(word) != "infinity"@ {
        lemma_pointed_names_are_quoted(sign, word);
    }
}

proof fn lemma_based_numbers_are_quoted(prefix: Seq<char>, digits: Seq<char>)
    requires
        prefix == "0x"@ || prefix == "0X"@ || prefix == "0o"@ || prefix == "0O"@ || prefix == "0b"@
            || prefix == "0B"@,
        digits.len() > 0,
        forall|i: int|
            0 <= i < digits.len() ==> '0' <= #[trigger] digits[i] <= '9' || 'a' <= digits[i] <= 'f'
                || 'A' <= digits[i] <= 'F' || digits[i] == '_',
    ensures
        style_of(prefix + digits) == ScalarStyle::DoubleQuoted,
{
    reveal_strlit("0x");
    reveal_strlit("0X");
    reveal_strlit("0o");
    reveal_strlit("0O");
    reveal_strlit("0b");
    reveal_strlit("0B");
    let s = prefix + digits;
    assert(prefix.len() == 2);
    assert(s[0] == prefix[0] && s[1] == prefix[1]);
    assert(lowered(s)[0] == lower(s[0]) && lowered(s)[1] == lower(s[1]));
    assert forall|i: int| 2 <= i < s.len() implies is_hex_digit(#[trigger] s[i]) || s[i] == '_' by {
        assert(s[i] == digits[i - 2]);
    }
    assert(is_extra_numeric(s));
    assert(!s.contains('\n')) by {
        if s.contains('\n') {
            let k = choose|k: int| 0 <= k < s.len() && s[k] == '\n';
            if k >= 2 {
                assert(s[k] == digits[k - 2]);
            }
        }
    }
}

proof fn lemma_word_is_one_line(word: Seq<char>, k: int)
    requires
        lowered(word) == "inf"@ || lowered(word) == "nan"@ || lowered(word) == "infinity"@,
        0 <= k < word.len(),
    ensures
        word[k] != '\n',
        !is_sign(word[k]),
        word[k] != '.',
{
    reveal_strlit("inf");
    reveal_strlit("nan");
    reveal_strlit("infinity");
    assert(lowered(word)[k] == lower(word[k]));
    assert(lowered(word).len() == word.len());
}

proof fn lemma_named_numbers_are_quoted(sign: Seq<char>, word: Seq<char>)
    requires
        sign.len() == 0 || sign == "+"@ || sign == "-"@,
        lowered(word) == "inf"@ || lowered(word) == "nan"@ || lowered(word) == "infinity"@,
    ensures
        style_of(sign + word) == ScalarStyle::DoubleQuoted,
{
    reveal_strlit("+");
    reveal_strlit("-");
    reveal_strlit("inf");
    reveal_strlit("nan");
    reveal_strlit("infinity");
    let s = sign + word;
    let i = sign.len() as int;
    assert(lowered(word).len() == word.len());
    lemma_word_is_one_line(word, 0);
    assert(s[i] == word[0]);
    if i > 0 {
        assert(s[0] == sign[0]);
    }
    assert(skip_sign(s, 0) == i);
    assert(s.skip(i) =~= word);
    assert(is_float_text(s));
    assert(!s.contains('\n')) by {
        if s.contains('\n') {
            let k = choose|k: int| 0 <= k < s.len() && s[k] == '\n';
            if k >= i {
                lemma_word_is_one_line(word, k - i);
                assert(s[k] == word[k - i]);
            } else {
                assert(s[k] == sign[k]);
            }
        }
    }
}

proof fn lemma_pointed_names_are_quoted(sign: Seq<char>, word: Seq<char>)
    requires
        sign.len() == 0 || sign == "+"@ || sign == "-"@,
        lowered(word) == "inf"@ || lowered(word) == "nan"@,
    ensures
        style_of(sign + ("."@ + word)) == ScalarStyle::DoubleQuoted,
{
    reveal_strlit("+");
    reveal_strlit("-");
    reveal_strlit(".");
    reveal_strlit("inf");
    reveal_strlit("nan");
    reveal_strlit(".inf");
    reveal_strlit(".nan");
    reveal_strlit("+.inf");
    reveal_strlit("-.inf");
    reveal_strlit("+.nan");
    reveal_strlit("-.nan");
    let s = sign + ("."@ + word);
    let i = sign.len() as int;
    assert(lowered(word).len() == word.len());
    assert(word.len() == 3);
    assert(lowered(word)[0] == lower(word[0]) && lowered(word)[1] == lower(word[1]) && lowered(
        word,
    )[2] == lower(word[2]));
    assert(s.len() == i + 4);
    assert(s[i] == '.' && s[i + 1] == word[0] && s[i + 2] == word[1] && s[i + 3] == word[2]);
    let low = lowered(s);
    assert(low.len() == s.len());
    assert(low[i] == lower(s[i]) && low[i + 1] == lower(s[i + 1]) && low[i + 2] == lower(s[i + 2])
        && low[i + 3] == lower(s[i + 3]));
    if i == 0 {
        if lowered(word) == "inf"@ {
            assert(low =~= ".inf"@);
        } else {
            assert(low =~= ".nan"@);
        }
    } else {
        assert(s[0] == sign[0]);
        assert(low[0] == lower(s[0]));
        if sign == "+"@ {
            if lowered(word) == "inf"@ {
                assert(low =~= "+.inf"@);
            } else {
                assert(low =~= "+.nan"@);
            }
        } else {
            if lowered(word) == "inf"@ {
                assert(low =~= "-.inf"@);
            } else {
                assert(low =~= "-.nan"@);
            }
        }
    }
    assert(is_extra_numeric(s));
    assert(!s.contains('\n')) by {
        if s.contains('\n') {
            let k = choose|k: int| 0 <= k < s.len() && s[k] == '\n';
            if k > i {
                lemma_word_is_one_line(word, k - i - 1);
            } else if k < i {
                assert(s[k] == sign[k]);
            }
        }
    }
}

/// The words for truth values and for nothing are quoted in all three ways to write them, and so is
/// a question mark alone or before a blank, and what begins with any white space.
pub proof fn law_reserved_words_are_quoted(value: &str, style: ScalarStyle)
    requires
        call_ensures(scalar_style, (value,), style),
        !value@.contains('\n'),
    ensures
        ({
            let s = value@;
            let n = s.len() as int;
            &&& s == "True"@ || s == "False"@ || s == "Null"@ ==> style == ScalarStyle::DoubleQuoted
            &&& s == "TRUE"@ || s == "FALSE"@ || s == "NULL"@ ==> style == ScalarStyle::DoubleQuoted
            &&& n > 0 && s[0] == '?' && (n == 1 || s[1] == ' ' || s[1] == '\t') ==> style
                == ScalarStyle::DoubleQuoted
            &&& n > 0 && is_space(s[0]) ==> style == ScalarStyle::DoubleQuoted
        }),
{
    reveal_strlit("True");
    reveal_strlit("False");
    reveal_strlit("Null");
    reveal_strlit("TRUE");
    reveal_strlit("FALSE");
    reveal_strlit("NULL");
}

/// A line of text that begins with a Latin letter stays as it is, unless it is one of the reserved
/// words, holds a control character, ends in a blank, or holds a colon before a blank or at its end
/// or a number sign behind a blank.
pub proof fn law_ordinary_lines_stay_plain(s: Seq<char>, indent: nat)
    requires
        s.len() > 0,
        'a' <= s[0] <= 'z' || 'A' <= s[0] <= 'Z',
        s != "true"@ && s != "True"@ && s != "TRUE"@,
        s != "false"@ && s != "False"@ && s != "FALSE"@,
        s != "null"@ && s != "Null"@ && s != "NULL"@,
        lowered(s) != "inf"@ && lowered(s) != "infinity"@ && lowered(s) != "nan"@,
        forall|i: int|
            0 <= i < s.len() ==> !is_control_char(#[trigger] s[i]) || s[i] == '\t',
        s.last() != ' ' && s.last() != '\t',
        forall|i: int|
            0 <= i < s.len() && #[trigger] s[i] == ':' ==> i + 1 < s.len() && s[i + 1] != ' ' && s[i
                + 1] != '\t',
        forall|i: int|
            0 < i < s.len() && #[trigger] s[i] == '#' ==> s[i - 1] != ' ' && s[i - 1] != '\t',
    ensures
        style_of(s) == ScalarStyle::Plain,
        rendered(s, indent) == s,
{
    reveal_strlit("~");
    reveal_strlit(": ");
    reveal_strlit(":\t");
    reveal_strlit(" #");
    reveal_strlit("\t#");
    reveal_strlit(".inf");
    reveal_strlit(".nan");
    reveal_strlit("+.inf");
    reveal_strlit("-.inf");
    reveal_strlit("+.nan");
    reveal_strlit("-.nan");
    assert(s.skip(0) =~= s);
    assert(lowered(s)[0] == lower(s[0]));
    lemma_digit_run(s, 0, 0);
    assert(!is_number_from(s, 0));
    assert(!is_float_text(s));
    assert(!is_extra_numeric(s));
    assert(!occurs_in(s, ": "@)) by {
        lemma_pair_does_not_occur(s, ": "@);
    }
    assert(!occurs_in(s, ":\t"@)) by {
        lemma_pair_does_not_occur(s, ":\t"@);
    }
    assert(!occurs_in(s, " #"@)) by {
        lemma_pair_does_not_occur(s, " #"@);
    }
    assert(!occurs_in(s, "\t#"@)) by {
        lemma_pair_does_not_occur(s, "\t#"@);
    }
    assert(!s.contains('\n')) by {
        if s.contains('\n') {
            let k = choose|k: int| 0 <= k < s.len() && s[k] == '\n';
            assert(is_control_char(s[k]));
        }
    }
    assert(s.last() != ':') by {
        assert(s[s.len() - 1] == s.last());
    }
}

proof fn lemma_pair_does_not_occur(s: Seq<char>, pair: Seq<char>)
    requires
        pair.len() == 2,
        forall|i: int|
            0 <= i && i + 1 < s.len() ==> !(#[trigger] s[i] == pair[0] && s[i + 1] == pair[1]),
    ensures
        !occurs_in(s, pair),
{
    if occurs_in(s, pair) {
        let at = choose|at: int| #[trigger] occurs_at(s, pair, at);
        let part = s.subrange(at, at + 2);
        assert(part[0] == s[at] && part[1] == s[at + 1]);
        assert(!(s[at] == pair[0] && s[at + 1] == pair[1]));
    }
}

proof fn lemma_digits_of_run(s: Seq<char>, i: int, k: int)
    requires
        0 <= i <= k < i + digit_run(s, i),
    ensures
        i + digit_run(s, i) <= s.len(),
        is_digit(s[k]),
    decreases s.len() - i,
{
    if 0 <= i < s.len() && is_digit(s[i]) {
        if k > i {
            lemma_digits_of_run(s, i + 1, k);
        } else if digit_run(s, i + 1) > 0 {
            lemma_digits_of_run(s, i + 1, i + 1);
        }
    }
}

proof fn lemma_digit_run_is_natural(s: Seq<char>, i: int)
    ensures
        digit_run(s, i) >= 0,
    decreases s.len() - i,
{
    if 0 <= i < s.len() && is_digit(s[i]) {
        lemma_digit_run_is_natural(s, i + 1);
    }
}

proof fn lemma_characters_of_a_number(s: Seq<char>, k: int)
    requires
        is_number_from(s, 0),
        0 <= k < s.len(),
    ensures
        is_digit(s[k]) || is_sign(s[k]) || s[k] == '.' || s[k] == 'e' || s[k] == 'E',
{
    let whole = digit_run(s, 0);
    let end = mantissa_end(s, 0);
    lemma_digit_run_is_natural(s, 0);
    lemma_digit_run_is_natural(s, whole + 1);
    if k < whole {
        lemma_digits_of_run(s, 0, k);
    } else if k < end {
        if k > whole {
            lemma_digits_of_run(s, whole + 1, k);
        }
    } else if k > end {
        let from = skip_sign(s, end + 1);
        if k >= from {
            lemma_digits_of_run(s, from, k);
        }
    }
}

/// A line of text that begins with a digit stays as it is where it holds, after its first two
/// characters, a character that no number has, and where nothing else in it needs quoting.
pub proof fn law_dates_and_names_with_digits_stay_plain(s: Seq<char>, k: int, indent: nat)
    requires
        '0' <= s[0] <= '9',
        2 <= k < s.len(),
        !('0' <= s[k] <= '9' || 'a' <= s[k] <= 'f' || 'A' <= s[k] <= 'F' || s[k] == '_' || s[k]
            == '+' || s[k] == '-' || s[k] == '.'),
        forall|i: int|
            0 <= i < s.len() ==> !is_control_char(#[trigger] s[i]) || s[i] == '\t',
        s.last() != ' ' && s.last() != '\t',
        forall|i: int|
            0 <= i < s.len() && #[trigger] s[i] == ':' ==> i + 1 < s.len() && s[i + 1] != ' ' && s[i
                + 1] != '\t',
        forall|i: int|
            0 < i < s.len() && #[trigger] s[i] == '#' ==> s[i - 1] != ' ' && s[i - 1] != '\t',
    ensures
        style_of(s) == ScalarStyle::Plain,
        rendered(s, indent) == s,
{
    reveal_strlit("~");
    reveal_strlit("true");
    reveal_strlit("True");
    reveal_strlit("TRUE");
    reveal_strlit("false");
    reveal_strlit("False");
    reveal_strlit("FALSE");
    reveal_strlit("null");
    reveal_strlit("Null");
    reveal_strlit("NULL");
    reveal_strlit("inf");
    reveal_strlit("infinity");
    reveal_strlit("nan");
    reveal_strlit(": ");
    reveal_strlit(":\t");
    reveal_strlit(" #");
    reveal_strlit("\t#");
    reveal_strlit(".inf");
    reveal_strlit(".nan");
    reveal_strlit("+.inf");
    reveal_strlit("-.inf");
    reveal_strlit("+.nan");
    reveal_strlit("-.nan");
    assert(s.skip(0) =~= s);
    assert(lowered(s)[0] == lower(s[0]));
    if is_number_from(s, 0) {
        lemma_characters_of_a_number(s, k);
    }
    assert(!is_float_text(s));
    assert(!is_hex_digit(s[k]) && s[k] != '_');
    assert(!is_extra_numeric(s));
    assert(!occurs_in(s, ": "@)) by {
        lemma_pair_does_not_occur(s, ": "@);
    }
    assert(!occurs_in(s, ":\t"@)) by {
        lemma_pair_does_not_occur(s, ":\t"@);
    }
    assert(!occurs_in(s, " #"@)) by {
        lemma_pair_does_not_occur(s, " #"@);
    }
    assert(!occurs_in(s, "\t#"@)) by {
        lemma_pair_does_not_occur(s, "\t#"@);
    }
    assert(!s.contains('\n')) by {
        if s.contains('\n') {
            let n = choose|n: int| 0 <= n < s.len() && s[n] == '\n';
            assert(is_control_char(s[n]));
        }
    }
    assert(s.last() != ':') by {
        assert(s[s.len() - 1] == s.last());
    }
}

} // verus!
