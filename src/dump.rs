use crate::line::Line;
use crate::render::{
    chunk_count, chunk_line, chunk_of, hexdump_chunk, hexdump_summary, summary_line, CHUNK_LENGTH,
};
use vstd::prelude::*;

verus! {

/// The `k`-th line of the dump of `bytes`: a chunk's line, or past the last
/// chunk the summary line.
pub open spec fn dump_line(bytes: Seq<u8>, k: nat) -> Seq<char> {
    if k < chunk_count(bytes.len()) {
        chunk_line(k * 16, chunk_of(bytes, k))
    } else {
        summary_line(bytes.len())
    }
}

/// All lines of the dump of `bytes`, in forward order: one per chunk, then
/// the summary line.
pub open spec fn dump_lines(bytes: Seq<u8>) -> Seq<Seq<char>> {
    Seq::new(chunk_count(bytes.len()) + 1, |k: int| dump_line(bytes, k as nat))
}

/// The lines of a hexdump, produced on demand from either end.
pub struct Hexdump<'a> {
    bytes: &'a [u8],
    front: usize,
    back: usize,
    summary_done: bool,
}

impl<'a> View for Hexdump<'a> {
    type V = Seq<Seq<char>>;

    /// The lines not yet produced, in forward order.
    closed spec fn view(&self) -> Seq<Seq<char>> {
        Seq::new(
            (self.back - self.front) as nat,
            |j: int| dump_line(self.bytes@, (self.front + j) as nat),
        ) + if self.summary_done {
            Seq::empty()
        } else {
            seq![summary_line(self.bytes@.len())]
        }
    }
}

/// Calls `f` the first time only: sets `flag` and returns `f`'s result if
/// `flag` was clear, returns `None` if it was set.
fn once<T, F: FnOnce() -> T>(flag: &mut bool, f: F) -> (r: Option<T>)
    requires
        !*old(flag) ==> f.requires(()),
    ensures
        *final(flag),
        *old(flag) ==> r is None,
        !*old(flag) ==> r is Some && f.ensures((), r->0),
{
    if !*flag {
        *flag = true;
        Some(f())
    } else {
        None
    }
}

/// Creates a hexdump iterator that yields the individual lines.
pub fn hexdump_iter(bytes: &[u8]) -> (r: Hexdump)
    requires
        bytes@.len() <= u32::MAX,
    ensures
        r.wf(),
        r@ == dump_lines(bytes@),
{
    Hexdump::new(bytes)
}

impl<'a> Hexdump<'a> {
    /// Consistent cursors over a buffer whose offsets fit in 8 hex digits.
    pub closed spec fn wf(&self) -> bool {
        &&& self.front <= self.back <= chunk_count(self.bytes@.len() as nat)
        &&& self.bytes@.len() <= u32::MAX
    }

    fn new(bytes: &'a [u8]) -> (r: Hexdump<'a>)
        requires
            bytes@.len() <= u32::MAX,
        ensures
            r.wf(),
            r@ == dump_lines(bytes@),
    {
        let len = bytes.len();
        let chunks = len / CHUNK_LENGTH + if len % CHUNK_LENGTH != 0 {
            1
        } else {
            0
        };
        assert(chunks == chunk_count(len as nat));
        let r = Hexdump { bytes, front: 0, back: chunks, summary_done: false };
        assert(r@ =~= dump_lines(bytes@));
        r
    }

    /// Produces the first line not yet produced, or `None` once all are.
    pub fn next(&mut self) -> (r: Option<Line>)
        requires
            old(self).wf(),
        ensures
            final(self).wf(),
            old(self)@.len() == 0 ==> r is None && final(self)@ == old(self)@,
            old(self)@.len() > 0 ==> r is Some && r->0@ == old(self)@[0] && final(self)@
                == old(self)@.drop_first(),
    {
        if self.front < self.back {
            let line = hexdump_chunk(self.bytes, self.front);
            self.front = self.front + 1;
            assert(self@ =~= old(self)@.drop_first());
            Some(line)
        } else {
            let len = self.bytes.len();
            let r = once(
                &mut self.summary_done,
                (|| -> (l: Line)
                    requires
                        len <= u32::MAX,
                    ensures
                        l@ == summary_line(len as nat),
                    { hexdump_summary(len) }),
            );
            if r.is_some() {
                assert(self@ =~= old(self)@.drop_first());
            } else {
                assert(self@ =~= old(self)@);
            }
            r
        }
    }

    /// Produces the last line not yet produced, or `None` once all are.
    pub fn next_back(&mut self) -> (r: Option<Line>)
        requires
            old(self).wf(),
        ensures
            final(self).wf(),
            old(self)@.len() == 0 ==> r is None && final(self)@ == old(self)@,
            old(self)@.len() > 0 ==> r is Some && r->0@ == old(self)@.last() && final(self)@
                == old(self)@.drop_last(),
    {
        let len = self.bytes.len();
        let summary = once(
            &mut self.summary_done,
            (|| -> (l: Line)
                requires
                    len <= u32::MAX,
                ensures
                    l@ == summary_line(len as nat),
                { hexdump_summary(len) }),
        );
        match summary {
            Some(line) => {
                assert(self@ =~= old(self)@.drop_last());
                Some(line)
            },
            None => {
                if self.front < self.back {
                    self.back = self.back - 1;
                    let line = hexdump_chunk(self.bytes, self.back);
                    assert(self@ =~= old(self)@.drop_last());
                    Some(line)
                } else {
                    None
                }
            },
        }
    }

    /// Number of lines not yet produced.
    pub fn len(&self) -> (r: usize)
        requires
            self.wf(),
        ensures
            r == self@.len(),
    {
        (self.back - self.front) + if !self.summary_done {
            1
        } else {
            0
        }
    }

    /// Lower and upper bound on the lines not yet produced: both exact.
    pub fn size_hint(&self) -> (r: (usize, Option<usize>))
        requires
            self.wf(),
        ensures
            r.0 == self@.len(),
            r.1 == Some(self@.len() as usize),
    {
        (self.len(), Some(self.len()))
    }
}

} // verus!
