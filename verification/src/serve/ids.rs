//! New ids and previews.

use vstd::prelude::*;

use crate::engine::storage::key::{is_stem_text, lemma_plain_key};
use crate::text::{from_chars, has_prefix, to_chars, trim, trimmed};

verus! {

/// Spreads the counter over the whole range.
pub const MIX: u32 = 0x9E37_79B1;

/// What undoes the spreading.
pub const UNMIX: u32 = 0x0E8B_2F51;

/// A hexadecimal digit.
pub open spec fn hex_digit(d: int) -> char {
    if d < 10 {
        (0x30 + d) as char
    } else {
        (0x57 + d) as char
    }
}

/// The last `len` hexadecimal digits of a number, in lower case.
pub open spec fn hex(n: nat, len: nat) -> Seq<char>
    decreases len,
{
    if len == 0 {
        seq![]
    } else {
        hex(n / 16, (len - 1) as nat).push(hex_digit((n % 16) as int))
    }
}

fn hex_char(d: u32) -> (c: char)
    requires
        d < 16,
    ensures
        c == hex_digit(d as int),
{
    match d {
        0 => '0',
        1 => '1',
        2 => '2',
        3 => '3',
        4 => '4',
        5 => '5',
        6 => '6',
        7 => '7',
        8 => '8',
        9 => '9',
        10 => 'a',
        11 => 'b',
        12 => 'c',
        13 => 'd',
        14 => 'e',
        _ => 'f',
    }
}

fn push_hex(out: &mut String, n: u32, len: u32)
    requires
        len <= 8,
    ensures
        final(out)@ == old(out)@ + hex(n as nat, len as nat),
    decreases len,
{
    if len > 0 {
        push_hex(out, n / 16, len - 1);
        let ghost front = out@;
        out.push(hex_char(n % 16));
        proof {
            assert(out@ =~= old(out)@ + hex(n as nat, len as nat));
        }
    } else {
        proof {
            assert(out@ =~= old(out)@ + hex(n as nat, 0));
        }
    }
}

/// The number behind an id: clock and counter, mixed.
pub open spec fn id_number(nanos: u32, counter: u32) -> u32 {
    (nanos ^ counter).wrapping_mul(MIX)
}

fn new_id(prefix: &str, nanos: u32, counter: u32) -> (id: String)
    ensures
        id@ == prefix@ + hex(id_number(nanos, counter) as nat, 8),
{
    let v: u32 = (nanos ^ counter).wrapping_mul(MIX);
    let mut id = prefix.to_owned();
    push_hex(&mut id, v, 8);
    id
}

proof fn lemma_hex_digits(n: nat, len: nat)
    ensures
        hex(n, len).len() == len,
        forall|i: int|
            0 <= i < len ==> '0' <= #[trigger] hex(n, len)[i] <= '9' || 'a' <= hex(n, len)[i] <= 'f',
    decreases len,
{
    if len > 0 {
        lemma_hex_digits(n / 16, (len - 1) as nat);
    }
}

/// A new id may name a file.
pub proof fn law_new_ids_name_files(nanos: u32, counter: u32)
    ensures
        is_stem_text("les-"@ + hex(id_number(nanos, counter) as nat, 8)),
        is_stem_text("mem-"@ + hex(id_number(nanos, counter) as nat, 8)),
{
    reveal_strlit("les-");
    reveal_strlit("mem-");
    let digits = hex(id_number(nanos, counter) as nat, 8);
    lemma_hex_digits(id_number(nanos, counter) as nat, 8);
    let lesson = "les-"@ + digits;
    let memory = "mem-"@ + digits;
    assert forall|i: int| 0 <= i < 12 implies #[trigger] lesson[i] != '.' && lesson[i] != '/'
        && lesson[i] != '\\' by {
        if i >= 4 {
            assert(lesson[i] == digits[i - 4]);
        }
    }
    assert forall|i: int| 0 <= i < 12 implies #[trigger] memory[i] != '.' && memory[i] != '/'
        && memory[i] != '\\' by {
        if i >= 4 {
            assert(memory[i] == digits[i - 4]);
        }
    }
    lemma_plain_key(lesson);
    lemma_plain_key(memory);
}

/// A new id for a lesson, from the low bits of the clock and a counter.
pub fn new_lesson_id(nanos: u32, counter: u32) -> (id: String)
    ensures
        id@ == "les-"@ + hex(id_number(nanos, counter) as nat, 8),
{
    new_id("les-", nanos, counter)
}

/// A new id for a memory, from the low bits of the clock and a counter.
pub fn new_memory_id(nanos: u32, counter: u32) -> (id: String)
    ensures
        id@ == "mem-"@ + hex(id_number(nanos, counter) as nat, 8),
{
    new_id("mem-", nanos, counter)
}

/// The trimmed text, or its beginning and an ellipsis where it is longer than `max` characters.
pub open spec fn preview_of(body: Seq<char>, max: nat) -> Seq<char> {
    let t = trimmed(body);
    if t.len() <= max {
        t
    } else {
        t.take(max as int).push('\u{2026}')
    }
}

/// A preview of a text.
pub fn preview(body: &str, max: usize) -> (p: String)
    ensures
        p@ == preview_of(body@, max as nat),
{
    let t = trim(body);
    let chars = to_chars(t.as_str());
    if chars.len() <= max {
        return t;
    }
    let mut p = from_chars(&chars, 0, max);
    p.push('\u{2026}');
    proof {
        assert(chars@.subrange(0, max as int) =~= chars@.take(max as int));
    }
    p
}

// ---- Laws --------------------------------------------------------------------

proof fn lemma_hex_injective(a: nat, b: nat, len: nat)
    requires
        hex(a, len) == hex(b, len),
        a < pow16(len),
        b < pow16(len),
    ensures
        a == b,
    decreases len,
{
    if len > 0 {
        let ha = hex(a, len);
        let hb = hex(b, len);
        assert(ha.last() == hex_digit((a % 16) as int) && hb.last() == hex_digit((b % 16) as int));
        assert(ha.drop_last() =~= hex(a / 16, (len - 1) as nat));
        assert(hb.drop_last() =~= hex(b / 16, (len - 1) as nat));
        lemma_hex_digit_injective((a % 16) as int, (b % 16) as int);
        lemma_hex_injective(a / 16, b / 16, (len - 1) as nat);
    }
}

proof fn lemma_hex_digit_injective(d: int, e: int)
    requires
        0 <= d < 16,
        0 <= e < 16,
        hex_digit(d) == hex_digit(e),
    ensures
        d == e,
{
}

/// How many numbers `len` hexadecimal digits can tell apart.
spec fn pow16(len: nat) -> nat
    decreases len,
{
    if len == 0 {
        1
    } else {
        16 * pow16((len - 1) as nat)
    }
}

/// Ids drawn at the same moment with different counters are different.
pub proof fn law_ids_differ(nanos: u32, a: u32, b: u32)
    requires
        a != b,
    ensures
        hex(id_number(nanos, a) as nat, 8) != hex(id_number(nanos, b) as nat, 8),
{
    let x = nanos ^ a;
    let y = nanos ^ b;
    assert(x != y) by (bit_vector)
        requires
            x == nanos ^ a,
            y == nanos ^ b,
            a != b,
    ;
    let p = x.wrapping_mul(MIX);
    let q = y.wrapping_mul(MIX);
    if p == q {
        lemma_unmix(x);
        lemma_unmix(y);
    }
    reveal_with_fuel(pow16, 9);
    if hex(p as nat, 8) == hex(q as nat, 8) {
        lemma_hex_injective(p as nat, q as nat, 8);
    }
}

proof fn lemma_unmix(x: u32)
    ensures
        x.wrapping_mul(MIX).wrapping_mul(UNMIX) == x,
{
    let m: int = 0x1_0000_0000;
    let k = (x as int * MIX) / m;
    let p = x.wrapping_mul(MIX) as int;
    assert(p == x as int * MIX - m * k);
    let t = 150_801_925 * x - UNMIX * k;
    assert(p * UNMIX == x + m * t);
    assert((x + m * t) % m == x);
}

/// A preview is at most one character longer than asked for, and a text that fits is kept.
pub proof fn law_previews_are_short(body: Seq<char>, max: nat)
    ensures
        preview_of(body, max).len() <= max + 1,
        trimmed(body).len() <= max ==> preview_of(body, max) == trimmed(body),
{
}

/// The number that hexadecimal digits stand for, the most significant one first.
pub open spec fn hex_number(digits: Seq<char>) -> int
    decreases digits.len(),
{
    if digits.len() == 0 {
        0
    } else {
        let c = digits.last();
        16 * hex_number(digits.drop_last()) + if '0' <= c <= '9' {
            c as int - 0x30
        } else {
            c as int - 0x61 + 10
        }
    }
}

proof fn lemma_hex_number(n: nat, len: nat)
    requires
        n < pow16(len),
    ensures
        hex_number(hex(n, len)) == n,
    decreases len,
{
    if len > 0 {
        let rest = hex(n / 16, (len - 1) as nat);
        assert(hex(n, len).drop_last() =~= rest);
        assert(n / 16 < pow16((len - 1) as nat));
        lemma_hex_number(n / 16, (len - 1) as nat);
    }
}

/// A new id is its prefix and eight hexadecimal digits, which stand for its number.
pub proof fn law_new_ids_hold_their_number(nanos: u32, counter: u32, lesson: String, memory: String)
    requires
        call_ensures(new_lesson_id, (nanos, counter), lesson),
        call_ensures(new_memory_id, (nanos, counter), memory),
    ensures
        has_prefix(lesson@, "les-"@),
        has_prefix(memory@, "mem-"@),
        lesson@.len() == 12 && memory@.len() == 12,
        lesson@.skip(4) == memory@.skip(4),
        hex_number(lesson@.skip(4)) == (nanos ^ counter).wrapping_mul(0x9E37_79B1),
        forall|i: int|
            4 <= i < 12 ==> '0' <= #[trigger] lesson@[i] <= '9' || 'a' <= lesson@[i] <= 'f',
{
    let n = id_number(nanos, counter) as nat;
    let digits = hex(n, 8);
    reveal_strlit("les-");
    reveal_strlit("mem-");
    lemma_hex_digits(n, 8);
    reveal_with_fuel(pow16, 9);
    lemma_hex_number(n, 8);
    assert(lesson@.skip(4) =~= digits);
    assert(memory@.skip(4) =~= digits);
    assert(lesson@.subrange(0, 4) =~= "les-"@);
    assert(memory@.subrange(0, 4) =~= "mem-"@);
    assert forall|i: int| 4 <= i < 12 implies '0' <= #[trigger] lesson@[i] <= '9' || 'a'
        <= lesson@[i] <= 'f' by {
        assert(lesson@[i] == digits[i - 4]);
    }
}

/// A preview is the body without the white space around it; a longer one is cut at its limit, and
/// an ellipsis tells so.
pub proof fn law_a_preview_shows_the_beginning(body: &str, max: usize, p: String)
    requires
        call_ensures(preview, (body, max), p),
    ensures
        trimmed(body@).len() <= max ==> p@ == trimmed(body@),
        trimmed(body@).len() > max ==> {
            &&& p@.len() == max + 1
            &&& p@.last() == '\u{2026}'
            &&& p@.take(max as int) == trimmed(body@).take(max as int)
        },
{
    if trimmed(body@).len() > max {
        assert(p@.take(max as int) =~= trimmed(body@).take(max as int));
    }
}

} // verus!
