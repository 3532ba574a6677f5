use crate::text::{grapheme_offsets, grapheme_starts};
use vstd::prelude::*;
use vstd::string::StringSliceAdditionalSpecFns;
use vstd::math::min;
use vstd::utf8::*;

verus! {

broadcast use {
    encode_utf8_valid_utf8,
    encode_utf8_decode_utf8,
    decode_utf8_encode_utf8,
    valid_utf8_split,
    decode_utf8_split,
    is_char_boundary_start_end_of_seq,
};

/// Largest line that the terminal reads.
pub const MAX_LINE: usize = 4096;

/// The UTF-8 bytes of a text.
pub open spec fn bytes_of(s: Seq<char>) -> Seq<u8> {
    encode_utf8(s)
}

/// `b` with the bytes `start..end` taken out.
pub open spec fn cut(b: Seq<u8>, start: int, end: int) -> Seq<u8> {
    b.subrange(0, start) + b.subrange(end, b.len() as int)
}

/// `b` with `t` put in at byte `at`.
pub open spec fn splice(b: Seq<u8>, at: int, t: Seq<u8>) -> Seq<u8> {
    b.subrange(0, at) + t + b.subrange(at, b.len() as int)
}

/// Where the cursor lands after moving forward over `n` grapheme clusters,
/// given the cluster starts `g` of the text after the cursor and that
/// text's length `total`, counted from the cursor.
pub open spec fn forward_offset(g: Seq<usize>, total: int, n: nat) -> Option<int> {
    if n == 0 || g.len() == 0 {
        None
    } else if n < g.len() {
        Some(g[n as int] as int)
    } else {
        Some(total)
    }
}

/// Where the cursor lands after moving back over `n` grapheme clusters,
/// given the cluster starts `g` of the text before the cursor.
pub open spec fn backward_offset(g: Seq<usize>, n: nat) -> Option<int> {
    if n == 0 || g.len() == 0 {
        None
    } else if n < g.len() {
        Some(g[g.len() - n] as int)
    } else {
        Some(g[0] as int)
    }
}

/// A cluster boundary of the text after a character boundary is a character
/// boundary of the whole text.
proof fn lemma_suffix_boundary(b: Seq<u8>, p: int, i: int)
    requires
        valid_utf8(b),
        is_char_boundary(b, p),
        0 <= p <= b.len(),
        0 <= i <= b.len() - p,
        is_char_boundary(b.subrange(p, b.len() as int), i),
    ensures
        is_char_boundary(b, p + i),
{
    let s = b.subrange(p, b.len() as int);
    assert(valid_utf8(s));
    if i < s.len() {
        assert(s[i] == b[p + i]);
        is_char_boundary_iff_not_is_continuation_byte(s, i);
        is_char_boundary_iff_not_is_continuation_byte(b, p + i);
    } else {
        is_char_boundary_start_end_of_seq(b);
    }
}

/// A character boundary of the text before a character boundary is one of
/// the whole text.
proof fn lemma_prefix_boundary(b: Seq<u8>, p: int, i: int)
    requires
        valid_utf8(b),
        is_char_boundary(b, p),
        0 <= i <= p <= b.len(),
        is_char_boundary(b.subrange(0, p), i),
    ensures
        is_char_boundary(b, i),
{
    let s = b.subrange(0, p);
    assert(valid_utf8(s));
    if i < p {
        assert(s[i] == b[i]);
        is_char_boundary_iff_not_is_continuation_byte(s, i);
        is_char_boundary_iff_not_is_continuation_byte(b, i);
    }
}

/// Where bytes between two character boundaries are taken out, the first
/// stays a character boundary.
proof fn lemma_cut_boundary(b: Seq<u8>, start: int, end: int)
    requires
        valid_utf8(b),
        valid_utf8(cut(b, start, end)),
        0 <= start <= end <= b.len(),
        is_char_boundary(b, start),
        is_char_boundary(b, end),
    ensures
        is_char_boundary(cut(b, start, end), start),
{
    let c = cut(b, start, end);
    if start < c.len() {
        assert(c[start] == b[end]);
        is_char_boundary_iff_not_is_continuation_byte(c, start);
        is_char_boundary_iff_not_is_continuation_byte(b, end);
    } else {
        is_char_boundary_start_end_of_seq(c);
    }
}

/// Text put in at a character boundary ends at one.
proof fn lemma_splice_boundary(b: Seq<u8>, p: int, t: Seq<u8>)
    requires
        valid_utf8(b),
        valid_utf8(splice(b, p, t)),
        0 <= p <= b.len(),
        is_char_boundary(b, p),
    ensures
        is_char_boundary(splice(b, p, t), p + t.len()),
{
    let c = splice(b, p, t);
    if p < b.len() {
        assert(c[p + t.len()] == b[p]);
        is_char_boundary_iff_not_is_continuation_byte(c, p + t.len());
        is_char_boundary_iff_not_is_continuation_byte(b, p);
    } else {
        is_char_boundary_start_end_of_seq(c);
    }
}

/// Relies on `String::with_capacity`: an empty string.
#[verifier::external_body]
fn string_with_capacity(capacity: usize) -> (r: String)
    ensures
        r@ == Seq::<char>::empty(),
{
    String::with_capacity(capacity)
}

/// Relies on `String::insert_str`: puts `t` in at byte `idx`, which must be a
/// character boundary; a string never holds more than `isize::MAX` bytes.
#[verifier::external_body]
fn string_insert_str(s: &mut String, idx: usize, t: &str)
    requires
        idx <= bytes_of(old(s)@).len(),
        is_char_boundary(bytes_of(old(s)@), idx as int),
    ensures
        bytes_of(final(s)@) == splice(bytes_of(old(s)@), idx as int, t.spec_bytes()),
        bytes_of(final(s)@).len() <= isize::MAX,
{
    s.insert_str(idx, t)
}

/// Relies on `String::push_str`: appends `t`; a string never holds more than
/// `isize::MAX` bytes.
#[verifier::external_body]
fn string_push_str(s: &mut String, t: &str)
    ensures
        bytes_of(final(s)@) == bytes_of(old(s)@) + t.spec_bytes(),
        bytes_of(final(s)@).len() <= isize::MAX,
{
    s.push_str(t)
}

/// Relies on `String::drain`: takes out the bytes `start..end`, both character
/// boundaries, and hands them back as a string.
#[verifier::external_body]
fn string_drain(s: &mut String, start: usize, end: usize) -> (r: String)
    requires
        start <= end <= bytes_of(old(s)@).len(),
        is_char_boundary(bytes_of(old(s)@), start as int),
        is_char_boundary(bytes_of(old(s)@), end as int),
    ensures
        bytes_of(final(s)@) == cut(bytes_of(old(s)@), start as int, end as int),
        bytes_of(r@) == bytes_of(old(s)@).subrange(start as int, end as int),
{
    s.drain(start..end).collect()
}

/// Relies on `String::push`: appends `c`; a string never holds more than
/// `isize::MAX` bytes.
#[verifier::external_body]
fn string_push(s: &mut String, c: char)
    ensures
        final(s)@ == old(s)@.push(c),
        bytes_of(final(s)@).len() <= isize::MAX,
{
    s.push(c)
}

/// `c`, `n` times.
fn repeat_char(c: char, n: usize) -> (r: String)
    ensures
        r@ == Seq::new(n as nat, |_i: int| c),
{
    let mut text = String::new();
    let mut i: usize = 0;
    while i < n
        invariant
            i <= n,
            text@ == Seq::new(i as nat, |_i: int| c),
        decreases n - i,
    {
        string_push(&mut text, c);
        i = i + 1;
        proof {
            assert(text@ =~= Seq::new(i as nat, |_i: int| c));
        }
    }
    text
}

/// The largest character boundary of `b` at or below `m`.
pub open spec fn cut_point(b: Seq<u8>, m: int) -> int
    decreases m,
{
    if m <= 0 {
        0
    } else if is_char_boundary(b, m) {
        m
    } else {
        cut_point(b, m - 1)
    }
}

/// An optional byte offset, as an integer.
pub open spec fn opt_int(o: Option<usize>) -> Option<int> {
    match o {
        Some(v) => Some(v as int),
        None => None,
    }
}

/// Text being edited on one line, and the cursor in it.
///
/// The cursor is a byte offset into the line; the editing operations act
/// only while it falls on a character boundary.
pub struct LineBuffer {
    /// The line.
    pub buf: String,
    /// The cursor, as a byte offset.
    pub pos: usize,
    /// Most bytes that `update` keeps.
    pub capacity: usize,
}

impl LineBuffer {
    /// The line's bytes.
    pub open spec fn bytes(&self) -> Seq<u8> {
        bytes_of(self.buf@)
    }

    /// The line's characters.
    pub open spec fn chars(&self) -> Seq<char> {
        self.buf@
    }

    /// The cursor, as a byte offset.
    pub open spec fn cursor(&self) -> nat {
        self.pos as nat
    }

    /// Whether the cursor falls on a character boundary.
    pub open spec fn at_boundary(&self) -> bool {
        is_char_boundary(self.bytes(), self.pos as int)
    }

    /// The text after the cursor.
    pub open spec fn after_cursor(&self) -> Seq<char> {
        decode_utf8(self.bytes().subrange(self.pos as int, self.bytes().len() as int))
    }

    /// The text before the cursor.
    pub open spec fn before_cursor(&self) -> Seq<char> {
        decode_utf8(self.bytes().subrange(0, self.pos as int))
    }

    /// Where the cursor lands after moving forward over `n` grapheme clusters;
    /// `None` at the end of the line, for `n == 0`, or off a character boundary.
    pub open spec fn forward_target(&self, n: nat) -> Option<int> {
        if self.pos == self.bytes().len() || !self.at_boundary() {
            None
        } else {
            match forward_offset(
                grapheme_starts(self.after_cursor()),
                self.bytes().len() - self.pos,
                n,
            ) {
                Some(e) => Some(self.pos + e),
                None => None,
            }
        }
    }

    /// Where the cursor lands after moving back over `n` grapheme clusters;
    /// `None` at the start of the line, for `n == 0`, or off a character
    /// boundary.
    pub open spec fn backward_target(&self, n: nat) -> Option<int> {
        if self.pos == 0 || !self.at_boundary() {
            None
        } else {
            backward_offset(grapheme_starts(self.before_cursor()), n)
        }
    }

    /// The cursor lies within the line, which fits in memory.
    pub open spec fn wf(&self) -> bool {
        &&& self.bytes().len() <= isize::MAX
        &&& self.pos <= self.bytes().len()
    }

    /// An empty line that keeps at most `capacity` bytes on `update`.
    pub fn with_capacity(capacity: usize) -> (r: Self)
        ensures
            r.wf(),
            r.chars() == Seq::<char>::empty(),
            r.bytes() == Seq::<u8>::empty(),
            r.cursor() == 0,
            r.at_boundary(),
            r.capacity == capacity,
    {
        LineBuffer { buf: string_with_capacity(capacity), pos: 0, capacity }
    }

    /// A line holding `line`, with the cursor at `pos`.
    pub fn init(line: &str, pos: usize) -> (r: Self)
        requires
            pos <= line.spec_bytes().len(),
            is_char_boundary(line.spec_bytes(), pos as int),
        ensures
            r.wf(),
            r.chars() == line@,
            r.bytes() == line.spec_bytes(),
            r.cursor() == pos,
            r.at_boundary(),
            r.capacity == MAX_LINE,
    {
        let mut lb = Self::with_capacity(MAX_LINE);
        lb.insert_str(0, line);
        proof {
            assert(lb.bytes() =~= line.spec_bytes());
        }
        lb.set_pos(pos);
        proof {
            assert(lb.chars() == decode_utf8(lb.bytes()));
            assert(line@ == decode_utf8(line.spec_bytes()));
        }
        lb
    }

    /// The whole line.
    pub fn as_str(&self) -> (r: &str)
        ensures
            r@ == self.chars(),
    {
        self.buf.as_str()
    }

    /// The line, as an owned string.
    pub fn into_string(self) -> (r: String)
        ensures
            r@ == self.chars(),
    {
        self.buf
    }

    /// The cursor, as a byte offset.
    pub fn pos(&self) -> (r: usize)
        ensures
            r == self.cursor(),
    {
        self.pos
    }

    /// Puts the cursor at byte `pos`.
    pub fn set_pos(&mut self, pos: usize)
        requires
            old(self).wf(),
            pos <= old(self).bytes().len(),
        ensures
            final(self).capacity == old(self).capacity,
            final(self).wf(),
            final(self).chars() == old(self).chars(),
            final(self).cursor() == pos,
    {
        self.pos = pos;
    }

    /// Whether the cursor falls on a character boundary.
    pub fn cursor_on_boundary(&self) -> (r: bool)
        requires
            self.wf(),
        ensures
            r == self.at_boundary(),
    {
        self.buf.as_str().is_char_boundary(self.pos)
    }

    /// Length of the line in bytes.
    pub fn len(&self) -> (r: usize)
        requires
            self.wf(),
        ensures
            r == self.bytes().len(),
    {
        self.buf.as_str().len()
    }

    /// Whether the line is empty.
    pub fn is_empty(&self) -> (r: bool)
        ensures
            r == (self.chars().len() == 0),
    {
        self.buf.as_str().is_empty()
    }

    /// Puts `s` in at byte `idx`; true when that is the end of the line.
    /// The cursor is left where it was.
    pub fn insert_str(&mut self, idx: usize, s: &str) -> (r: bool)
        requires
            old(self).wf(),
            idx <= old(self).bytes().len(),
            is_char_boundary(old(self).bytes(), idx as int),
        ensures
            final(self).capacity == old(self).capacity,
            r == (idx == old(self).bytes().len()),
            final(self).bytes() == splice(old(self).bytes(), idx as int, s.spec_bytes()),
            final(self).cursor() == old(self).cursor(),
            final(self).wf(),
    {
        if idx == self.len() {
            string_push_str(&mut self.buf, s);
            proof {
                let b = old(self).bytes();
                assert(splice(b, idx as int, s.spec_bytes()) =~= b + s.spec_bytes());
            }
            true
        } else {
            string_insert_str(&mut self.buf, idx, s);
            false
        }
    }

    /// The byte offset just after the next `n` grapheme clusters.
    pub fn next_pos(&self, n: usize) -> (r: Option<usize>)
        requires
            self.wf(),
        ensures
            opt_int(r) == self.forward_target(n as nat),
            r is None <==> (self.cursor() == self.bytes().len() || n == 0 || !self.at_boundary()),
            r matches Some(p) ==> self.cursor() < p <= self.bytes().len() && is_char_boundary(
                self.bytes(),
                p as int,
            ) && self.at_boundary(),
    {
        let len = self.len();
        if self.pos == len || !self.buf.as_str().is_char_boundary(self.pos) {
            return None;
        }
        let (_, rest) = self.buf.as_str().split_at(self.pos);
        let g = grapheme_offsets(rest);
        proof {
            assert(rest@ == self.after_cursor());
            if rest@.len() == 0 {
                assert(rest@ =~= Seq::<char>::empty());
                assert(rest.spec_bytes().len() == 0);
            }
        }
        if n == 0 {
            None
        } else if n < g.len() {
            proof {
                lemma_suffix_boundary(self.bytes(), self.pos as int, g@[n as int] as int);
            }
            Some(self.pos + g[n])
        } else {
            Some(len)
        }
    }

    /// The byte offset at which the `n`-th grapheme cluster before the
    /// cursor starts.
    pub fn prev_pos(&self, n: usize) -> (r: Option<usize>)
        requires
            self.wf(),
        ensures
            opt_int(r) == self.backward_target(n as nat),
            r is None <==> (self.cursor() == 0 || n == 0 || !self.at_boundary()),
            r matches Some(p) ==> p < self.cursor() && is_char_boundary(self.bytes(), p as int)
                && self.at_boundary(),
    {
        if self.pos == 0 || !self.buf.as_str().is_char_boundary(self.pos) {
            return None;
        }
        let (before, _) = self.buf.as_str().split_at(self.pos);
        let g = grapheme_offsets(before);
        proof {
            assert(before@ == self.before_cursor());
            if before@.len() == 0 {
                assert(before@ =~= Seq::<char>::empty());
                assert(before.spec_bytes().len() == 0);
            }
        }
        let k = g.len();
        if n == 0 {
            None
        } else {
            let i: usize = if n < k {
                k - n
            } else {
                0
            };
            proof {
                lemma_prefix_boundary(self.bytes(), self.pos as int, g@[i as int] as int);
            }
            Some(g[i])
        }
    }

    /// Takes the bytes `start..end` out of the line.
    fn drain(&mut self, start: usize, end: usize) -> (r: String)
        requires
            old(self).wf(),
            start <= end <= old(self).bytes().len(),
            is_char_boundary(old(self).bytes(), start as int),
            is_char_boundary(old(self).bytes(), end as int),
            old(self).cursor() <= old(self).bytes().len() - (end - start),
        ensures
            final(self).capacity == old(self).capacity,
            final(self).wf(),
            final(self).bytes() == cut(old(self).bytes(), start as int, end as int),
            bytes_of(r@) == old(self).bytes().subrange(start as int, end as int),
            final(self).cursor() == old(self).cursor(),
    {
        string_drain(&mut self.buf, start, end)
    }

    /// Types `ch` `n` times at the cursor and moves the cursor past it.
    /// `Some(true)` when that was the end of the line; `None`, with nothing
    /// changed, when the cursor is off a character boundary.
    pub fn insert(&mut self, ch: char, n: usize) -> (r: Option<bool>)
        requires
            old(self).wf(),
        ensures
            final(self).wf(),
            old(self).at_boundary() ==> {
                let t = bytes_of(Seq::new(n as nat, |_i: int| ch));
                &&& r == Some(old(self).cursor() == old(self).bytes().len())
                &&& final(self).bytes() == splice(old(self).bytes(), old(self).cursor() as int, t)
                &&& final(self).cursor() == old(self).cursor() + t.len()
                &&& final(self).at_boundary()
            },
            !old(self).at_boundary() ==> r is None && *final(self) == *old(self),
    {
        if !self.buf.as_str().is_char_boundary(self.pos) {
            return None;
        }
        let text = repeat_char(ch, n);
        let push = self.pos == self.len();
        let pos = self.pos;
        self.insert_str(pos, text.as_str());
        self.pos = pos + text.as_str().len();
        proof {
            lemma_splice_boundary(old(self).bytes(), pos as int, bytes_of(text@));
        }
        Some(push)
    }

    /// Moves the cursor back over `n` grapheme clusters; false, with the
    /// cursor left alone, when it cannot.
    pub fn move_backward(&mut self, n: usize) -> (r: bool)
        requires
            old(self).wf(),
        ensures
            final(self).wf(),
            final(self).chars() == old(self).chars(),
            r == old(self).backward_target(n as nat) is Some,
            r ==> final(self).cursor() == old(self).backward_target(n as nat)->Some_0,
            !r ==> final(self).cursor() == old(self).cursor(),
    {
        match self.prev_pos(n) {
            Some(pos) => {
                self.pos = pos;
                true
            },
            None => false,
        }
    }

    /// Moves the cursor forward over `n` grapheme clusters; false, with the
    /// cursor left alone, when it cannot.
    pub fn move_forward(&mut self, n: usize) -> (r: bool)
        requires
            old(self).wf(),
        ensures
            final(self).wf(),
            final(self).chars() == old(self).chars(),
            r == old(self).forward_target(n as nat) is Some,
            r ==> final(self).cursor() == old(self).forward_target(n as nat)->Some_0,
            !r ==> final(self).cursor() == old(self).cursor(),
    {
        match self.next_pos(n) {
            Some(pos) => {
                self.pos = pos;
                true
            },
            None => false,
        }
    }

    /// Moves the cursor to the start of the line; false if it was there.
    pub fn move_home(&mut self) -> (r: bool)
        requires
            old(self).wf(),
        ensures
            final(self).wf(),
            final(self).chars() == old(self).chars(),
            final(self).cursor() == 0,
            r == (old(self).cursor() > 0),
    {
        if self.pos > 0 {
            self.pos = 0;
            true
        } else {
            false
        }
    }

    /// Moves the cursor to the end of the line; false if it was there.
    pub fn move_end(&mut self) -> (r: bool)
        requires
            old(self).wf(),
        ensures
            final(self).wf(),
            final(self).chars() == old(self).chars(),
            final(self).bytes() == old(self).bytes(),
            final(self).cursor() == old(self).bytes().len(),
            final(self).at_boundary(),
            r == (old(self).cursor() != old(self).bytes().len()),
    {
        proof {
            is_char_boundary_start_end_of_seq(self.bytes());
        }
        let len = self.len();
        if self.pos == len {
            false
        } else {
            self.pos = len;
            true
        }
    }

    /// Deletes the `n` grapheme clusters after the cursor and hands them back;
    /// the cursor stays. `None`, with nothing changed, when there is nothing
    /// to delete.
    pub fn delete(&mut self, n: usize) -> (r: Option<String>)
        requires
            old(self).wf(),
        ensures
            final(self).wf(),
            final(self).cursor() == old(self).cursor(),
            r is Some == old(self).forward_target(n as nat) is Some,
            r matches Some(d) ==> {
                let end = old(self).forward_target(n as nat)->Some_0;
                &&& old(self).cursor() < end <= old(self).bytes().len()
                &&& final(self).at_boundary()
                &&& final(self).bytes() == cut(old(self).bytes(), old(self).cursor() as int, end)
                &&& bytes_of(d@) == old(self).bytes().subrange(old(self).cursor() as int, end)
            },
            r is None ==> *final(self) == *old(self),
    {
        match self.next_pos(n) {
            Some(pos) => {
                let start = self.pos;
                let chars = self.drain(start, pos);
                proof {
                    lemma_cut_boundary(old(self).bytes(), start as int, pos as int);
                }
                Some(chars)
            },
            None => None,
        }
    }

    /// Deletes the `n` grapheme clusters before the cursor, which moves back
    /// to where they started; false, with nothing changed, when there is
    /// nothing to delete.
    pub fn backspace(&mut self, n: usize) -> (r: bool)
        requires
            old(self).wf(),
        ensures
            final(self).wf(),
            r == old(self).backward_target(n as nat) is Some,
            r ==> {
                let start = old(self).backward_target(n as nat)->Some_0;
                &&& final(self).bytes() == cut(old(self).bytes(), start, old(self).cursor() as int)
                &&& final(self).cursor() == start
            },
            !r ==> *final(self) == *old(self),
    {
        match self.prev_pos(n) {
            Some(pos) => {
                let end = self.pos;
                self.pos = pos;
                self.drain(pos, end);
                true
            },
            None => false,
        }
    }

    /// Deletes from the cursor to the end of the line; false, with nothing
    /// changed, when the cursor is at the end or off a character boundary.
    pub fn kill_line(&mut self) -> (r: bool)
        requires
            old(self).wf(),
        ensures
            final(self).wf(),
            final(self).cursor() == old(self).cursor(),
            r == (old(self).cursor() < old(self).bytes().len() && old(self).at_boundary()),
            r ==> final(self).bytes() == old(self).bytes().subrange(0, old(self).cursor() as int),
            !r ==> *final(self) == *old(self),
    {
        let len = self.len();
        if !self.is_empty() && self.pos < len && self.buf.as_str().is_char_boundary(self.pos) {
            let start = self.pos;
            self.drain(start, len);
            proof {
                let b = old(self).bytes();
                assert(cut(b, start as int, len as int) =~= b.subrange(0, start as int));
            }
            true
        } else {
            false
        }
    }

    /// Deletes from the start of the line to the cursor, which moves to the
    /// start; false, with nothing changed, when the cursor is at the start or
    /// off a character boundary.
    pub fn discard_line(&mut self) -> (r: bool)
        requires
            old(self).wf(),
        ensures
            final(self).wf(),
            r == (old(self).cursor() > 0 && old(self).at_boundary()),
            r ==> final(self).bytes() == old(self).bytes().subrange(
                old(self).cursor() as int,
                old(self).bytes().len() as int,
            ) && final(self).cursor() == 0,
            !r ==> *final(self) == *old(self),
    {
        if self.pos > 0 && !self.is_empty() && self.buf.as_str().is_char_boundary(self.pos) {
            let end = self.pos;
            self.pos = 0;
            self.drain(0, end);
            proof {
                let b = old(self).bytes();
                assert(cut(b, 0, end as int) =~= b.subrange(end as int, b.len() as int));
            }
            true
        } else {
            false
        }
    }

    /// Replaces the bytes `range` with `text` and puts the cursor after it.
    pub fn replace(&mut self, range: std::ops::Range<usize>, text: &str)
        requires
            old(self).wf(),
            range.start <= range.end <= old(self).bytes().len(),
            is_char_boundary(old(self).bytes(), range.start as int),
            is_char_boundary(old(self).bytes(), range.end as int),
        ensures
            final(self).wf(),
            final(self).bytes() == splice(
                cut(old(self).bytes(), range.start as int, range.end as int),
                range.start as int,
                text.spec_bytes(),
            ),
            final(self).cursor() == range.start + text.spec_bytes().len(),
    {
        let start = range.start;
        let end = range.end;
        self.pos = 0;
        self.drain(start, end);
        proof {
            lemma_cut_boundary(old(self).bytes(), start as int, end as int);
        }
        self.insert_str(start, text);
        self.pos = start + text.len();
    }

    /// Removes the bytes `range` and puts the cursor where they started.
    pub fn delete_range(&mut self, range: std::ops::Range<usize>)
        requires
            old(self).wf(),
            range.start <= range.end <= old(self).bytes().len(),
            is_char_boundary(old(self).bytes(), range.start as int),
            is_char_boundary(old(self).bytes(), range.end as int),
        ensures
            final(self).wf(),
            final(self).bytes() == cut(old(self).bytes(), range.start as int, range.end as int),
            final(self).cursor() == range.start,
    {
        self.set_pos(range.start);
        self.drain(range.start, range.end);
    }

    /// Empties the line.
    pub fn clear(&mut self)
        requires
            old(self).wf(),
        ensures
            final(self).capacity == old(self).capacity,
            final(self).wf(),
            final(self).bytes() == Seq::<u8>::empty(),
            final(self).cursor() == 0,
            final(self).at_boundary(),
    {
        let end = self.len();
        self.pos = 0;
        self.drain(0, end);
        proof {
            assert(self.bytes() =~= Seq::<u8>::empty());
        }
    }

    /// Sets the line to `buf` and the cursor to `pos`. Text past the line's
    /// capacity is left out, cut at a character boundary, and the cursor is
    /// kept within what remains.
    pub fn update(&mut self, buf: &str, pos: usize)
        requires
            old(self).wf(),
            buf.spec_bytes().len() <= isize::MAX,
            pos <= buf.spec_bytes().len(),
        ensures
            final(self).wf(),
            final(self).capacity == old(self).capacity,
            ({
                let b = buf.spec_bytes();
                let k = cut_point(b, min(b.len() as int, old(self).capacity as int));
                &&& final(self).bytes() == b.subrange(0, k)
                &&& final(self).cursor() == min(pos as int, k)
            }),
    {
        let max = self.capacity;
        self.clear();
        let len = buf.len();
        let mut k: usize = if len > max {
            max
        } else {
            len
        };
        let ghost start = k as int;
        while !buf.is_char_boundary(k)
            invariant
                k <= len,
                len == buf.spec_bytes().len(),
                start == min(len as int, max as int),
                cut_point(buf.spec_bytes(), k as int) == cut_point(buf.spec_bytes(), start),
            decreases k,
        {
            proof {
                is_char_boundary_start_end_of_seq(buf.spec_bytes());
            }
            k = k - 1;
        }
        let (head, _) = buf.split_at(k);
        self.insert_str(0, head);
        proof {
            assert(self.bytes() =~= buf.spec_bytes().subrange(0, k as int));
        }
        if pos > k {
            self.pos = k;
        } else {
            self.pos = pos;
        }
    }
}

} // verus!
