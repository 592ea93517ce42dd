use crate::line::{printable_char, printable_text, Line};
use vstd::prelude::*;

verus! {

/// Number of input bytes shown on one line.
pub const CHUNK_LENGTH: usize = 16;

/// Number of bytes in one group of hex digits.
pub const SEGMENT_LENGTH: usize = 4;

/// Columns from a line's opening `|` through the space after its closing
/// `|`, the hex digits' padding included.
pub const HEX_FIELD_WIDTH: usize = 38;

/// Total width of every line.
pub const LINE_WIDTH: usize = 63;

/// Space through `~`, DEL excluded.
pub open spec fn is_printable(b: u8) -> bool {
    0x20 <= b && b < 0x7f
}

/// A byte as shown in the ASCII column.
pub open spec fn sanitized(b: u8) -> char {
    if is_printable(b) {
        b as char
    } else {
        '.'
    }
}

/// Lowercase hex digit of a value in `0..16`.
pub open spec fn hex_digit(d: nat) -> char {
    if d < 10 {
        (d + 0x30) as char
    } else {
        (d - 10 + 0x61) as char
    }
}

/// `n` as `width` lowercase hex digits, zero-padded, most significant first
/// (digits beyond `width` are not shown).
pub open spec fn hex_fixed(n: nat, width: nat) -> Seq<char>
    decreases width,
{
    if width == 0 {
        Seq::empty()
    } else {
        hex_fixed(n / 16, (width - 1) as nat).push(hex_digit(n % 16))
    }
}

/// `n` spaces.
pub open spec fn spaces(n: nat) -> Seq<char> {
    Seq::new(n, |_i: int| ' ')
}

/// The separator before the byte at position `k` of a chunk: one space at
/// the start of each group of four but the first.
pub open spec fn separator(k: int) -> Seq<char> {
    if k > 0 && k % 4 == 0 {
        seq![' ']
    } else {
        Seq::empty()
    }
}

/// The hex digits of a chunk, two per byte, in groups of four bytes.
pub open spec fn hex_groups(c: Seq<u8>) -> Seq<char>
    decreases c.len(),
{
    if c.len() == 0 {
        Seq::empty()
    } else {
        hex_groups(c.drop_last()) + separator(c.len() - 1) + hex_fixed(c.last() as nat, 2)
    }
}

/// The ASCII column's text of a chunk, before padding.
pub open spec fn sanitized_text(c: Seq<u8>) -> Seq<char> {
    c.map_values(|b: u8| sanitized(b))
}

/// The line of a chunk of 1 to 16 bytes whose first byte is at `offset`:
/// `|`, the hex groups, `| `, padding to a fixed hex field, the ASCII column
/// padded to 16 columns, a space and the offset in 8 hex digits.
pub open spec fn chunk_line(offset: nat, c: Seq<u8>) -> Seq<char> {
    seq!['|'] + hex_groups(c) + seq!['|', ' '] + spaces((HEX_FIELD_WIDTH - 3 - hex_groups(
        c,
    ).len()) as nat) + sanitized_text(c) + spaces((CHUNK_LENGTH - c.len()) as nat) + seq![' ']
        + hex_fixed(offset, 8)
}

/// The summary line: blank up to the offset column, then the total length
/// in 8 hex digits.
pub open spec fn summary_line(len: nat) -> Seq<char> {
    spaces((LINE_WIDTH - 8) as nat) + hex_fixed(len, 8)
}

/// Number of chunks of a buffer of `len` bytes: one per 16 bytes, the last
/// possibly short.
pub open spec fn chunk_count(len: nat) -> nat {
    (len + 15) / 16
}

/// The `k`-th chunk: up to 16 bytes from offset `16 * k`.
pub open spec fn chunk_of(bytes: Seq<u8>, k: nat) -> Seq<u8> {
    let start = k * 16;
    let end = if start + 16 <= bytes.len() {
        start + 16
    } else {
        bytes.len()
    };
    bytes.subrange(start as int, end as int)
}

/// Fixed-width hex text has its width and only printable characters.
pub proof fn lemma_hex_fixed(n: nat, width: nat)
    ensures
        hex_fixed(n, width).len() == width,
        printable_text(hex_fixed(n, width)),
    decreases width,
{
    if width > 0 {
        lemma_hex_fixed(n / 16, (width - 1) as nat);
        let d = n % 16;
        assert(printable_char(hex_digit(d)));
    }
}

/// `n` spaces are `n` printable characters.
pub proof fn lemma_spaces(n: nat)
    ensures
        spaces(n).len() == n,
        printable_text(spaces(n)),
{
}

/// Width of a chunk's hex groups: two digits per byte and one space
/// between groups of four; all printable.
pub proof fn lemma_hex_groups(c: Seq<u8>)
    ensures
        c.len() == 0 ==> hex_groups(c).len() == 0,
        c.len() > 0 ==> hex_groups(c).len() == 2 * c.len() + (c.len() - 1) / 4,
        printable_text(hex_groups(c)),
    decreases c.len(),
{
    if c.len() > 0 {
        lemma_hex_groups(c.drop_last());
        lemma_hex_fixed(c.last() as nat, 2);
        let a = hex_groups(c.drop_last());
        let b = separator(c.len() - 1);
        let h = hex_fixed(c.last() as nat, 2);
        assert(printable_text(a + b + h)) by {
            assert forall|i: int| 0 <= i < (a + b + h).len() implies printable_char(
                #[trigger] (a + b + h)[i],
            ) by {
                if i < a.len() {
                } else if i < a.len() + b.len() {
                } else {
                    assert((a + b + h)[i] == h[i - a.len() - b.len()]);
                }
            }
        }
    }
}

/// Lowercase hex digit of a value in `0..16`.
fn hex_digit_char(d: u8) -> (r: char)
    requires
        d < 16,
    ensures
        r == hex_digit(d as nat),
{
    if d < 10 {
        (d + 0x30) as char
    } else {
        (d - 10 + 0x61) as char
    }
}

/// Appends `n` as `width` hex digits.
fn push_hex(line: &mut Line, n: u32, width: usize)
    requires
        printable_text(old(line)@),
        old(line)@.len() + width <= crate::line::LINE_CAPACITY,
    ensures
        final(line)@ == old(line)@ + hex_fixed(n as nat, width as nat),
        printable_text(final(line)@),
    decreases width,
{
    proof {
        lemma_hex_fixed(n as nat, width as nat);
    }
    if width == 0 {
        assert(old(line)@ + hex_fixed(n as nat, 0) =~= old(line)@);
    } else {
        proof {
            lemma_hex_fixed((n / 16) as nat, (width - 1) as nat);
        }
        push_hex(line, n / 16, width - 1);
        let d = hex_digit_char((n % 16) as u8);
        assert(printable_char(d));
        line.push(d);
        assert(final(line)@ =~= old(line)@ + hex_fixed(n as nat, width as nat));
    }
}

/// Appends `count` spaces.
fn push_spaces(line: &mut Line, count: usize)
    requires
        printable_text(old(line)@),
        old(line)@.len() + count <= crate::line::LINE_CAPACITY,
    ensures
        final(line)@ == old(line)@ + spaces(count as nat),
        printable_text(final(line)@),
{
    let mut i: usize = 0;
    while i < count
        invariant
            i <= count,
            old(line)@.len() + count <= crate::line::LINE_CAPACITY,
            line@ == old(line)@ + spaces(i as nat),
            printable_text(line@),
        decreases count - i,
    {
        line.push(' ');
        i += 1;
        assert(line@ =~= old(line)@ + spaces(i as nat));
    }
}

/// Sanitizes a byte for safe output.
///
/// Any printable ASCII character is returned verbatim (including the space
/// character `' '`), for all other bytes, an ASCII dot `'.'` is returned.
pub fn sanitize_byte(byte: u8) -> (r: char)
    ensures
        r == sanitized(byte),
{
    if 0x20 <= byte && byte < 0x7f {
        byte as char
    } else {
        '.'
    }
}

/// The ASCII column has one printable character per byte.
pub proof fn lemma_sanitized_text(c: Seq<u8>)
    ensures
        sanitized_text(c).len() == c.len(),
        printable_text(sanitized_text(c)),
{
    assert forall|i: int| 0 <= i < sanitized_text(c).len() implies printable_char(
        #[trigger] sanitized_text(c)[i],
    ) by {
        let b = c[i];
        if is_printable(b) {
            assert((b as char) as u32 == b as u32);
        }
    }
}

/// The summary line for a buffer of `len` bytes.
pub(crate) fn hexdump_summary(len: usize) -> (r: Line)
    requires
        len <= u32::MAX,
    ensures
        r@ == summary_line(len as nat),
{
    let mut line = Line::empty();
    push_spaces(&mut line, LINE_WIDTH - 8);
    push_hex(&mut line, len as u32, 8);
    assert(line@ =~= summary_line(len as nat));
    line
}

/// The line of the `index`-th chunk of `bytes`.
pub(crate) fn hexdump_chunk(bytes: &[u8], index: usize) -> (r: Line)
    requires
        index < chunk_count(bytes@.len() as nat),
        bytes@.len() <= u32::MAX,
    ensures
        r@ == chunk_line(index as nat * 16, chunk_of(bytes@, index as nat)),
{
    let len = bytes.len();
    let start = index * CHUNK_LENGTH;
    let end = if len - start < CHUNK_LENGTH {
        len
    } else {
        start + CHUNK_LENGTH
    };
    let ghost c = chunk_of(bytes@, index as nat);
    assert(c == bytes@.subrange(start as int, end as int));
    let n = end - start;

    let mut line = Line::empty();
    line.push('|');
    let mut j = start;
    while j < end
        invariant
            start <= j <= end,
            end <= len == bytes@.len(),
            end - start <= CHUNK_LENGTH,
            line@ == seq!['|'] + hex_groups(bytes@.subrange(start as int, j as int)),
            printable_text(line@),
        decreases end - j,
    {
        let ghost before = bytes@.subrange(start as int, j as int);
        let ghost after = bytes@.subrange(start as int, j + 1);
        proof {
            lemma_hex_groups(before);
            assert(after.drop_last() =~= before);
        }
        if j > start && (j - start) % SEGMENT_LENGTH == 0 {
            line.push(' ');
        }
        push_hex(&mut line, bytes[j] as u32, 2);
        j += 1;
        assert(line@ =~= seq!['|'] + hex_groups(after));
    }
    proof {
        lemma_hex_groups(c);
    }
    line.push('|');
    line.push(' ');
    push_spaces(&mut line, HEX_FIELD_WIDTH - 3 - (2 * n + (n - 1) / SEGMENT_LENGTH));
    let ghost head = line@;
    j = start;
    while j < end
        invariant
            start <= j <= end,
            end <= len == bytes@.len(),
            end - start <= CHUNK_LENGTH,
            head.len() == HEX_FIELD_WIDTH,
            line@ == head + sanitized_text(bytes@.subrange(start as int, j as int)),
            printable_text(line@),
        decreases end - j,
    {
        let ghost after = bytes@.subrange(start as int, j + 1);
        proof {
            lemma_sanitized_text(bytes@.subrange(start as int, j as int));
        }
        let ch = sanitize_byte(bytes[j]);
        proof {
            lemma_sanitized_text(after);
            assert(sanitized_text(after)[j - start] == ch);
        }
        line.push(ch);
        j += 1;
        assert(line@ =~= head + sanitized_text(after));
    }
    proof {
        lemma_sanitized_text(c);
    }
    push_spaces(&mut line, CHUNK_LENGTH - n);
    line.push(' ');
    push_hex(&mut line, start as u32, 8);
    assert(line@ =~= chunk_line(index as nat * 16, c));
    line
}

} // verus!
