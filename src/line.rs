use arrayvec::ArrayString;
use vstd::prelude::*;

verus! {

/// Fixed-capacity text storage of arrayvec, opaque to the verifier.
#[verifier::external_type_specification]
#[verifier::external_body]
pub struct ExArrayString<const CAP: usize>(ArrayString<CAP>);

/// The characters held by a line buffer.
pub uninterp spec fn buffer_chars(s: ArrayString<64>) -> Seq<char>;

/// Capacity in bytes of the buffer behind one line.
pub const LINE_CAPACITY: usize = 64;

/// Every character is ASCII, so it takes exactly one byte of UTF-8.
pub open spec fn all_ascii(s: Seq<char>) -> bool {
    forall|i: int| 0 <= i < s.len() ==> (#[trigger] s[i]) as u32 <= 0x7f
}

/// A printable ASCII character: space through `~`.
pub open spec fn printable_char(c: char) -> bool {
    0x20 <= c as u32 && (c as u32) < 0x7f
}

/// Text made of printable ASCII characters only.
pub open spec fn printable_text(s: Seq<char>) -> bool {
    forall|i: int| 0 <= i < s.len() ==> printable_char(#[trigger] s[i])
}

/// Relies on arrayvec's `ArrayString::new`: a fresh buffer is empty.
#[verifier::external_body]
fn new_buffer() -> (r: ArrayString<64>)
    ensures
        buffer_chars(r) == Seq::<char>::empty(),
{
    ArrayString::new()
}

/// Relies on arrayvec's `ArrayString::push`: an ASCII character takes one
/// byte, and where the buffer's byte length (its character count, as all it
/// holds is ASCII) is under the capacity, the character is appended.
#[verifier::external_body]
fn push_char(s: &mut ArrayString<64>, c: char)
    requires
        all_ascii(buffer_chars(*old(s))),
        buffer_chars(*old(s)).len() < 64,
        c as u32 <= 0x7f,
    ensures
        buffer_chars(*final(s)) == buffer_chars(*old(s)).push(c),
{
    s.push(c)
}

/// Relies on arrayvec's `ArrayString::as_str`: the text held, as a `str`.
#[verifier::external_body]
fn buffer_str(s: &ArrayString<64>) -> (r: &str)
    ensures
        r@ == buffer_chars(*s),
{
    s.as_str()
}

/// A single line of hexdump output.
pub struct Line {
    inner: ArrayString<64>,
}

impl View for Line {
    type V = Seq<char>;

    closed spec fn view(&self) -> Seq<char> {
        buffer_chars(self.inner)
    }
}

impl Line {
    /// A line with no text yet.
    pub(crate) fn empty() -> (r: Line)
        ensures
            r@ == Seq::<char>::empty(),
    {
        Line { inner: new_buffer() }
    }

    /// Appends one printable character; the line stays within its capacity.
    pub(crate) fn push(&mut self, c: char)
        requires
            printable_text(old(self)@),
            old(self)@.len() < LINE_CAPACITY,
            printable_char(c),
        ensures
            final(self)@ == old(self)@.push(c),
            printable_text(final(self)@),
    {
        push_char(&mut self.inner, c);
    }

    /// The line's text.
    pub fn as_str(&self) -> (r: &str)
        ensures
            r@ == self@,
    {
        buffer_str(&self.inner)
    }

    /// Number of characters in the line.
    pub fn len(&self) -> (r: usize)
        ensures
            r == self@.len(),
    {
        buffer_str(&self.inner).unicode_len()
    }
}

impl Clone for Line {
    fn clone(&self) -> (r: Line)
        ensures
            r@ == self@,
    {
        Line { inner: self.inner }
    }
}

} // verus!
