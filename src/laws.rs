use crate::dump::{dump_line, dump_lines};
use crate::line::{printable_char, printable_text};
use crate::render::{
    chunk_count, chunk_line, chunk_of, hex_fixed, hex_groups, is_printable, lemma_hex_fixed,
    lemma_hex_groups, lemma_sanitized_text, lemma_spaces, sanitized, sanitized_text, spaces,
    summary_line, HEX_FIELD_WIDTH, LINE_WIDTH,
};
use vstd::prelude::*;

verus! {

/// Value of a lowercase hex digit.
pub open spec fn hex_digit_value(c: char) -> nat {
    if '0' <= c && c <= '9' {
        (c as u32 - 0x30) as nat
    } else {
        (c as u32 - 0x61 + 10) as nat
    }
}

/// A lowercase hex digit.
pub open spec fn is_hex_digit(c: char) -> bool {
    ('0' <= c && c <= '9') || ('a' <= c && c <= 'f')
}

/// The number that a run of lowercase hex digits denotes, most significant
/// first.
pub open spec fn hex_value(s: Seq<char>) -> nat
    decreases s.len(),
{
    if s.len() == 0 {
        0
    } else {
        hex_value(s.drop_last()) * 16 + hex_digit_value(s.last())
    }
}

/// `16` to the power `n`.
pub open spec fn pow16(n: nat) -> nat
    decreases n,
{
    if n == 0 {
        1
    } else {
        16 * pow16((n - 1) as nat)
    }
}

/// Pulls lines from the front (`true`) or the back (`false`) of `v` in the
/// order `pulls`, stopping when either runs out. Gives the lines taken from
/// the front in the order taken, the lines left, and the lines taken from the
/// back in their order within `v`.
pub open spec fn pull_lines(v: Seq<Seq<char>>, pulls: Seq<bool>) -> (
    Seq<Seq<char>>,
    Seq<Seq<char>>,
    Seq<Seq<char>>,
)
    decreases pulls.len(),
{
    if pulls.len() == 0 || v.len() == 0 {
        (Seq::empty(), v, Seq::empty())
    } else if pulls[0] {
        let (f, r, b) = pull_lines(v.drop_first(), pulls.drop_first());
        (seq![v[0]] + f, r, b)
    } else {
        let (f, r, b) = pull_lines(v.drop_last(), pulls.drop_first());
        (f, r, b.push(v.last()))
    }
}

/// Joining printable texts gives printable text.
proof fn lemma_printable_concat(a: Seq<char>, b: Seq<char>)
    requires
        printable_text(a),
        printable_text(b),
    ensures
        printable_text(a + b),
{
    assert forall|i: int| 0 <= i < (a + b).len() implies printable_char(#[trigger] (a + b)[i]) by {
        if i >= a.len() {
            assert((a + b)[i] == b[i - a.len()]);
        }
    }
}

/// A chunk holds 1 to 16 bytes, taken from offset `16 * k`.
proof fn lemma_chunk_of(bytes: Seq<u8>, k: nat)
    requires
        k < chunk_count(bytes.len()),
    ensures
        1 <= chunk_of(bytes, k).len() <= 16,
        forall|j: int|
            0 <= j < chunk_of(bytes, k).len() ==> #[trigger] chunk_of(bytes, k)[j] == bytes[k * 16
                + j],
{
}

/// Width and printability of a chunk's line, and where its ASCII column starts.
proof fn lemma_chunk_line(offset: nat, c: Seq<u8>)
    requires
        1 <= c.len() <= 16,
    ensures
        chunk_line(offset, c).len() == LINE_WIDTH,
        printable_text(chunk_line(offset, c)),
        forall|j: int|
            0 <= j < c.len() ==> #[trigger] chunk_line(offset, c)[HEX_FIELD_WIDTH + j]
                == sanitized(c[j]),
{
    lemma_hex_groups(c);
    lemma_sanitized_text(c);
    let h = hex_groups(c);
    let p1 = spaces((HEX_FIELD_WIDTH - 3 - h.len()) as nat);
    let p2 = spaces((16 - c.len()) as nat);
    let t = sanitized_text(c);
    let o = hex_fixed(offset, 8);
    lemma_spaces((HEX_FIELD_WIDTH - 3 - h.len()) as nat);
    lemma_spaces((16 - c.len()) as nat);
    lemma_hex_fixed(offset, 8);
    let bar = seq!['|'];
    let mid = seq!['|', ' '];
    let sp = seq![' '];
    assert(printable_text(bar));
    assert(printable_text(mid));
    assert(printable_text(sp));
    let head = bar + h + mid + p1;
    lemma_printable_concat(bar, h);
    lemma_printable_concat(bar + h, mid);
    lemma_printable_concat(bar + h + mid, p1);
    lemma_printable_concat(head, t);
    lemma_printable_concat(head + t, p2);
    lemma_printable_concat(head + t + p2, sp);
    lemma_printable_concat(head + t + p2 + sp, o);
    assert(chunk_line(offset, c) == head + t + p2 + sp + o);
    assert(head.len() == HEX_FIELD_WIDTH);
    assert forall|j: int| 0 <= j < c.len() implies #[trigger] chunk_line(offset, c)[HEX_FIELD_WIDTH
        + j] == sanitized(c[j]) by {
        assert((head + t + p2 + sp + o)[HEX_FIELD_WIDTH + j] == t[j]);
    }
}

/// Width and printability of the summary line.
proof fn lemma_summary_line(len: nat)
    ensures
        summary_line(len).len() == LINE_WIDTH,
        printable_text(summary_line(len)),
{
    lemma_spaces((LINE_WIDTH - 8) as nat);
    lemma_hex_fixed(len, 8);
    lemma_printable_concat(spaces((LINE_WIDTH - 8) as nat), hex_fixed(len, 8));
}

/// Width and printability of any line of a dump.
proof fn lemma_dump_line(bytes: Seq<u8>, k: nat)
    requires
        k <= chunk_count(bytes.len()),
    ensures
        dump_line(bytes, k).len() == LINE_WIDTH,
        printable_text(dump_line(bytes, k)),
{
    if k < chunk_count(bytes.len()) {
        lemma_chunk_of(bytes, k);
        lemma_chunk_line(k * 16, chunk_of(bytes, k));
    } else {
        lemma_summary_line(bytes.len());
    }
}

/// Every line of a dump, chunk or summary, is as wide as the only line of the
/// dump of an empty buffer.
pub proof fn lemma_uniform_width(bytes: Seq<u8>)
    ensures
        forall|k: int|
            0 <= k < dump_lines(bytes).len() ==> #[trigger] dump_lines(bytes)[k].len()
                == dump_lines(Seq::empty())[0].len(),
{
    lemma_dump_line(Seq::empty(), 0);
    assert forall|k: int| 0 <= k < dump_lines(bytes).len() implies #[trigger] dump_lines(
        bytes,
    )[k].len() == dump_lines(Seq::empty())[0].len() by {
        lemma_dump_line(bytes, k as nat);
    }
}

/// Every character of every line of a dump is printable ASCII.
pub proof fn lemma_printable_only(bytes: Seq<u8>)
    ensures
        forall|k: int|
            0 <= k < dump_lines(bytes).len() ==> printable_text(#[trigger] dump_lines(bytes)[k]),
{
    assert forall|k: int| 0 <= k < dump_lines(bytes).len() implies printable_text(
        #[trigger] dump_lines(bytes)[k],
    ) by {
        lemma_dump_line(bytes, k as nat);
    }
}

/// Fixed-width hex digits of a number that fits read back as that number.
proof fn lemma_hex_value(n: nat, width: nat)
    requires
        n < pow16(width),
    ensures
        hex_value(hex_fixed(n, width)) == n,
        forall|i: int| 0 <= i < width ==> is_hex_digit(#[trigger] hex_fixed(n, width)[i]),
    decreases width,
{
    lemma_hex_fixed(n, width);
    if width > 0 {
        let w1 = (width - 1) as nat;
        assert(n / 16 < pow16(w1)) by (nonlinear_arith)
            requires
                n < 16 * pow16(w1),
        ;
        lemma_hex_value(n / 16, w1);
        let s = hex_fixed(n, width);
        assert(s.drop_last() == hex_fixed(n / 16, w1));
        assert(n == (n / 16) * 16 + n % 16);
        let d = n % 16;
        assert(hex_digit_value(s.last()) == d);
        assert(is_hex_digit(s.last()));
        assert forall|i: int| 0 <= i < width implies is_hex_digit(#[trigger] s[i]) by {
            if i < w1 {
                assert(s[i] == hex_fixed(n / 16, w1)[i]);
            }
        }
    }
}

/// The last line of a dump is blank up to eight hex digits, which read as the
/// buffer's length (for lengths that fit in eight hex digits).
pub proof fn lemma_summary_round_trip(bytes: Seq<u8>)
    requires
        bytes.len() <= u32::MAX,
    ensures
        ({
            let last = dump_lines(bytes).last();
            let digits = last.subrange(LINE_WIDTH - 8, LINE_WIDTH as int);
            &&& last == spaces((LINE_WIDTH - 8) as nat) + digits
            &&& digits.len() == 8
            &&& forall|i: int| 0 <= i < 8 ==> is_hex_digit(#[trigger] digits[i])
            &&& hex_value(digits) == bytes.len()
        }),
{
    let len = bytes.len();
    reveal_with_fuel(pow16, 9);
    assert(pow16(8) == 0x1_0000_0000);
    lemma_hex_value(len, 8);
    lemma_summary_line(len);
    let last = dump_lines(bytes).last();
    assert(last == summary_line(len));
    lemma_spaces((LINE_WIDTH - 8) as nat);
    assert(last.subrange(LINE_WIDTH - 8, LINE_WIDTH as int) =~= hex_fixed(len, 8));
    assert(last =~= spaces((LINE_WIDTH - 8) as nat) + hex_fixed(len, 8));
}

/// Every printable byte of the buffer appears as itself in some line.
pub proof fn lemma_character_coverage(bytes: Seq<u8>)
    ensures
        forall|i: int|
            0 <= i < bytes.len() && is_printable(#[trigger] bytes[i]) ==> exists|k: int, j: int|
                0 <= k < dump_lines(bytes).len() && 0 <= j < dump_lines(bytes)[k].len()
                    && dump_lines(bytes)[k][j] == bytes[i] as char,
{
    assert forall|i: int|
        0 <= i < bytes.len() && is_printable(#[trigger] bytes[i]) implies exists|k: int, j: int|
        0 <= k < dump_lines(bytes).len() && 0 <= j < dump_lines(bytes)[k].len()
            && dump_lines(bytes)[k][j] == bytes[i] as char by {
        let k = i / 16;
        let j = i % 16;
        let c = chunk_of(bytes, k as nat);
        lemma_chunk_of(bytes, k as nat);
        assert(c[j] == bytes[i]);
        lemma_chunk_line(k as nat * 16, c);
        assert(dump_lines(bytes)[k] == chunk_line(k as nat * 16, c));
        assert(dump_lines(bytes)[k][HEX_FIELD_WIDTH + j] == bytes[i] as char);
    }
}

/// A dump of `L` bytes has `ceil(L / 16) + 1` lines.
pub proof fn lemma_line_count(bytes: Seq<u8>)
    ensures
        dump_lines(bytes).len() == (bytes.len() + 15) / 16 + 1,
{
}

/// Pulls from both ends split a sequence into taken prefix, rest and taken
/// suffix; as many pulls as elements leave no rest.
proof fn lemma_pull_lines(v: Seq<Seq<char>>, pulls: Seq<bool>)
    ensures
        ({
            let (f, r, b) = pull_lines(v, pulls);
            &&& f + r + b == v
            &&& pulls.len() >= v.len() ==> r.len() == 0
        }),
    decreases pulls.len(),
{
    if pulls.len() == 0 || v.len() == 0 {
        assert(Seq::<Seq<char>>::empty() + v + Seq::<Seq<char>>::empty() =~= v);
    } else if pulls[0] {
        lemma_pull_lines(v.drop_first(), pulls.drop_first());
        let (f, r, b) = pull_lines(v.drop_first(), pulls.drop_first());
        assert(seq![v[0]] + f + r + b =~= seq![v[0]] + (f + r + b));
        assert(seq![v[0]] + v.drop_first() =~= v);
    } else {
        lemma_pull_lines(v.drop_last(), pulls.drop_first());
        let (f, r, b) = pull_lines(v.drop_last(), pulls.drop_first());
        assert(f + r + b.push(v.last()) =~= (f + r + b).push(v.last()));
        assert(v.drop_last().push(v.last()) =~= v);
    }
}

/// Pulling the lines of a dump from both ends, in any order, hands out each
/// line of the forward order exactly once: the front pulls give a prefix, the
/// back pulls a suffix, and once there have been as many pulls as lines,
/// nothing is left between them.
pub proof fn lemma_bidirectional(bytes: Seq<u8>, pulls: Seq<bool>)
    ensures
        ({
            let (f, r, b) = pull_lines(dump_lines(bytes), pulls);
            &&& f + r + b == dump_lines(bytes)
            &&& pulls.len() >= dump_lines(bytes).len() ==> f + b == dump_lines(bytes)
        }),
{
    let v = dump_lines(bytes);
    lemma_pull_lines(v, pulls);
    let (f, r, b) = pull_lines(v, pulls);
    if pulls.len() >= v.len() {
        assert(f + r == f);
    }
}

} // verus!
