use crate::line_buffer::{bytes_of, cut, splice, LineBuffer};
use vstd::prelude::*;

verus! {

/// What the terminal shows for typed bytes: a newline as carriage return
/// and line feed, any other byte as itself.
pub open spec fn echo_of(s: Seq<u8>) -> Seq<u8>
    decreases s.len(),
{
    if s.len() == 0 {
        Seq::empty()
    } else if s.last() == 10u8 {
        echo_of(s.drop_last()) + seq![13u8, 10u8]
    } else {
        echo_of(s.drop_last()).push(s.last())
    }
}

/// What the terminal shows for inserted bytes: only the line breaks.
pub open spec fn breaks_of(s: Seq<u8>) -> Seq<u8>
    decreases s.len(),
{
    if s.len() == 0 {
        Seq::empty()
    } else if s.last() == 10u8 {
        breaks_of(s.drop_last()) + seq![13u8, 10u8]
    } else {
        breaks_of(s.drop_last())
    }
}

/// The line and cursor after typing byte `c` at cursor `cur` of line `b`:
/// a newline empties the line, any other byte goes in as one character.
pub open spec fn type_byte(b: Seq<u8>, cur: int, c: u8) -> (Seq<u8>, int) {
    if c == 10u8 {
        (Seq::empty(), 0)
    } else {
        let t = bytes_of(seq![c as char]);
        (splice(b, cur, t), cur + t.len())
    }
}

/// The line and cursor after typing the bytes `s`.
pub open spec fn type_bytes(b: Seq<u8>, cur: int, s: Seq<u8>) -> (Seq<u8>, int)
    decreases s.len(),
{
    if s.len() == 0 {
        (b, cur)
    } else {
        let p = type_bytes(b, cur, s.drop_last());
        type_byte(p.0, p.1, s.last())
    }
}

/// The signed big-endian 16-bit number in the first two bytes.
pub open spec fn be_i16(b0: u8, b1: u8) -> int {
    let u = b0 as int * 256 + b1 as int;
    if u >= 32768 {
        u - 65536
    } else {
        u
    }
}

/// Reads a signed big-endian 16-bit number.
pub fn read_i16(bytes: &[u8]) -> (r: i16)
    requires
        bytes@.len() >= 2,
    ensures
        r as int == be_i16(bytes@[0], bytes@[1]),
{
    let u: u32 = bytes[0] as u32 * 256 + bytes[1] as u32;
    if u >= 32768 {
        (u as i32 - 65536) as i16
    } else {
        u as i16
    }
}

/// Types `chars` into the line at its cursor, each byte as one character;
/// a newline empties the line. With `echo` every byte is echoed, else only
/// the line breaks. Returns what the terminal is to show.
fn feed(line: &mut LineBuffer, chars: &[u8], echo: bool) -> (out: Vec<u8>)
    requires
        old(line).wf(),
        old(line).at_boundary(),
    ensures
        final(line).wf(),
        final(line).at_boundary(),
        (final(line).bytes(), final(line).cursor() as int) == type_bytes(
            old(line).bytes(),
            old(line).cursor() as int,
            chars@,
        ),
        out@ == if echo {
            echo_of(chars@)
        } else {
            breaks_of(chars@)
        },
{
    let mut out: Vec<u8> = Vec::new();
    let mut i: usize = 0;
    while i < chars.len()
        invariant
            i <= chars@.len(),
            line.wf(),
            line.at_boundary(),
            (line.bytes(), line.cursor() as int) == type_bytes(
                old(line).bytes(),
                old(line).cursor() as int,
                chars@.take(i as int),
            ),
            out@ == if echo {
                echo_of(chars@.take(i as int))
            } else {
                breaks_of(chars@.take(i as int))
            },
        decreases chars@.len() - i,
    {
        proof {
            assert(chars@.take(i + 1).drop_last() =~= chars@.take(i as int));
        }
        let c = chars[i];
        if c == 10u8 {
            out.push(13u8);
            out.push(10u8);
            line.clear();
        } else {
            line.insert(c as char, 1);
            proof {
                assert(Seq::new(1, |_j: int| c as char) =~= seq![c as char]);
            }
            if echo {
                out.push(c);
            }
        }
        i = i + 1;
    }
    proof {
        assert(chars@.take(chars@.len() as int) =~= chars@);
    }
    out
}

/// Echoes output `chars` at the end of the line: the line takes each byte
/// as a character, and a newline empties it. Returns the bytes for the
/// terminal.
pub fn put_chars(line: &mut LineBuffer, chars: &[u8]) -> (out: Vec<u8>)
    requires
        old(line).wf(),
    ensures
        final(line).wf(),
        (final(line).bytes(), final(line).cursor() as int) == type_bytes(
            old(line).bytes(),
            old(line).bytes().len() as int,
            chars@,
        ),
        out@ == echo_of(chars@),
{
    line.move_end();
    feed(line, chars, true)
}

/// Types `chars` in at the cursor, a newline emptying the line, without
/// echoing them; only the line breaks are returned for the terminal, which
/// then redraws the line.
pub fn insert_chars(line: &mut LineBuffer, chars: &[u8]) -> (out: Vec<u8>)
    requires
        old(line).wf(),
        old(line).at_boundary(),
    ensures
        final(line).wf(),
        (final(line).bytes(), final(line).cursor() as int) == type_bytes(
            old(line).bytes(),
            old(line).cursor() as int,
            chars@,
        ),
        out@ == breaks_of(chars@),
{
    feed(line, chars, false)
}

/// Deletes as many grapheme clusters as the signed big-endian number in
/// `bytes` says: after the cursor when it is positive, before it otherwise.
pub fn delete_chars(line: &mut LineBuffer, bytes: &[u8])
    requires
        old(line).wf(),
        bytes@.len() >= 2,
    ensures
        final(line).wf(),
        ({
            let n = be_i16(bytes@[0], bytes@[1]);
            let b = old(line).bytes();
            let cur = old(line).cursor() as int;
            if n > 0 {
                &&& final(line).cursor() == cur
                &&& final(line).bytes() == match old(line).forward_target(n as nat) {
                    Some(end) => cut(b, cur, end),
                    None => b,
                }
            } else {
                match old(line).backward_target((-n) as nat) {
                    Some(start) => final(line).bytes() == cut(b, start, cur)
                        && final(line).cursor() == start,
                    None => final(line).bytes() == b && final(line).cursor() == cur,
                }
            }
        }),
{
    let n = read_i16(bytes);
    if n > 0 {
        line.delete(n as usize);
    } else {
        line.backspace((-(n as i32)) as usize);
    }
}

/// Moves the cursor by the signed big-endian number of grapheme clusters
/// in `bytes`; returns that number, for the terminal's cursor.
pub fn move_rel(line: &mut LineBuffer, bytes: &[u8]) -> (r: i16)
    requires
        old(line).wf(),
        bytes@.len() >= 2,
    ensures
        final(line).wf(),
        final(line).chars() == old(line).chars(),
        r as int == be_i16(bytes@[0], bytes@[1]),
        r < 0 ==> final(line).cursor() == old(line).backward_target((-r) as nat).unwrap_or(
            old(line).cursor() as int,
        ),
        r >= 0 ==> final(line).cursor() == old(line).forward_target(r as nat).unwrap_or(
            old(line).cursor() as int,
        ),
{
    let n = read_i16(bytes);
    if n < 0 {
        line.move_backward((-(n as i32)) as usize);
    } else {
        line.move_forward(n as usize);
    }
    n
}

} // verus!
