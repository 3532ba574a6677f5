use crate::text::{display_width, grapheme_offsets, grapheme_starts, str_width};
use vstd::prelude::*;
use vstd::string::StringSliceAdditionalSpecFns;
use vstd::utf8::*;

verus! {

broadcast use {
    encode_utf8_valid_utf8,
    encode_utf8_decode_utf8,
    valid_utf8_split,
    decode_utf8_split,
    is_char_boundary_start_end_of_seq,
};

/// Columns between tab stops.
pub const TAB_STOP: usize = 4;

/// Columns of the terminal.
pub const COLS: usize = 200;

/// A place on the terminal.
#[derive(Copy, Clone, Debug, Default, PartialEq, Eq, Structural)]
pub struct Position {
    pub col: usize,
    pub row: usize,
}

/// `a + b`, held at `usize::MAX`.
pub open spec fn sat_add(a: usize, b: usize) -> usize {
    if a + b > usize::MAX {
        usize::MAX
    } else {
        (a + b) as usize
    }
}

/// The escape state after a grapheme cluster of bytes `b`: 1 after an
/// escape, 2 inside a control sequence, 0 in plain text.
pub open spec fn next_esc(b: Seq<u8>, esc: u8) -> u8 {
    if esc == 1 {
        if b == seq![91u8] {
            2
        } else {
            0
        }
    } else if esc == 2 {
        if b == seq![59u8] || (48 <= b[0] <= 57) {
            2
        } else {
            0
        }
    } else if b == seq![27u8] {
        1
    } else {
        esc
    }
}

/// Columns that cluster `s` takes in escape state `esc`: none for a part of
/// an escape sequence or a newline.
pub open spec fn cluster_width(s: Seq<char>, esc: u8) -> usize {
    let b = encode_utf8(s);
    if esc == 1 || esc == 2 || b == seq![27u8] || b == seq![10u8] {
        0
    } else {
        display_width(s)
    }
}

/// Columns that cluster `s` takes, stepping the escape state.
pub fn width(s: &str, esc_seq: &mut u8) -> (r: usize)
    requires
        *old(esc_seq) == 2 ==> s.spec_bytes().len() > 0,
    ensures
        r == cluster_width(s@, *old(esc_seq)),
        *final(esc_seq) == next_esc(s.spec_bytes(), *old(esc_seq)),
{
    let b = s.as_bytes();
    let one = b.len() == 1;
    proof {
        if one {
            assert(b@ =~= seq![b@[0]]);
        }
    }
    if *esc_seq == 1 {
        if one && b[0] == 91u8 {
            *esc_seq = 2;
        } else {
            *esc_seq = 0;
        }
        0
    } else if *esc_seq == 2 {
        if (one && b[0] == 59u8) || (b[0] >= 48u8 && b[0] <= 57u8) {
        } else {
            *esc_seq = 0;
        }
        0
    } else if one && b[0] == 27u8 {
        *esc_seq = 1;
        0
    } else if one && b[0] == 10u8 {
        0
    } else {
        str_width(s)
    }
}

/// The bytes of the `i`-th grapheme cluster of `b`, whose clusters start at `g`.
pub open spec fn cluster_at(b: Seq<u8>, g: Seq<usize>, i: int) -> Seq<u8> {
    b.subrange(
        g[i] as int,
        if i + 1 < g.len() {
            g[i + 1] as int
        } else {
            b.len() as int
        },
    )
}

/// Where the cursor goes over cluster `c`, with the escape state after it.
pub open spec fn layout_step(p: Position, esc: u8, c: Seq<u8>) -> (Position, u8) {
    if c == seq![10u8] {
        (Position { col: 0, row: sat_add(p.row, 1) }, esc)
    } else {
        let tab = c == seq![9u8];
        let cw: usize = if tab {
            (TAB_STOP - p.col % TAB_STOP) as usize
        } else {
            cluster_width(decode_utf8(c), esc)
        };
        let e = if tab {
            esc
        } else {
            next_esc(c, esc)
        };
        let col = sat_add(p.col, cw);
        if col > COLS {
            (Position { col: cw, row: sat_add(p.row, 1) }, e)
        } else {
            (Position { col: col, row: p.row }, e)
        }
    }
}

/// Where the cursor goes from `orig` over the first `n` clusters.
pub open spec fn layout_upto(b: Seq<u8>, g: Seq<usize>, orig: Position, n: nat) -> (Position, u8)
    decreases n,
{
    if n == 0 {
        (orig, 0u8)
    } else {
        let prev = layout_upto(b, g, orig, (n - 1) as nat);
        layout_step(prev.0, prev.1, cluster_at(b, g, n - 1))
    }
}

/// A cursor on the last column moves to the start of the next row.
pub open spec fn wrap_end(p: Position) -> Position {
    if p.col == COLS {
        Position { col: 0, row: sat_add(p.row, 1) }
    } else {
        p
    }
}

/// A character boundary of a text is one of any prefix that holds it.
proof fn lemma_boundary_in_prefix(b: Seq<u8>, p: int, i: int)
    requires
        valid_utf8(b),
        is_char_boundary(b, p),
        is_char_boundary(b, i),
        0 <= i <= p <= b.len(),
    ensures
        is_char_boundary(b.subrange(0, p), i),
{
    let s = b.subrange(0, p);
    assert(valid_utf8(s));
    if i < p {
        assert(s[i] == b[i]);
        is_char_boundary_iff_not_is_continuation_byte(s, i);
        is_char_boundary_iff_not_is_continuation_byte(b, i);
    } else {
        is_char_boundary_start_end_of_seq(s);
    }
}

/// Where the cursor ends up after writing `s` from `orig`. Control
/// characters take no columns, a tab runs to the next tab stop, and a
/// cluster that does not fit on the row starts the next one.
pub fn calculate_position(s: &str, orig: Position) -> (r: Position)
    requires
        s.spec_bytes().len() <= isize::MAX,
    ensures
        r == wrap_end(
            layout_upto(
                s.spec_bytes(),
                grapheme_starts(s@),
                orig,
                grapheme_starts(s@).len(),
            ).0,
        ),
{
    let g = grapheme_offsets(s);
    let len = s.len();
    let ghost b = s.spec_bytes();
    let mut pos = orig;
    let mut esc_seq: u8 = 0;
    let mut i: usize = 0;
    while i < g.len()
        invariant
            g@ == grapheme_starts(s@),
            b == s.spec_bytes(),
            forall|j: int|
                0 <= j < g@.len() ==> g@[j] < b.len() && is_char_boundary(b, g@[j] as int),
            forall|j: int, k: int| 0 <= j < k < g@.len() ==> g@[j] < g@[k],
            len == b.len(),
            i <= g@.len(),
            (pos, esc_seq) == layout_upto(b, g@, orig, i as nat),
        decreases g@.len() - i,
    {
        let start = g[i];
        let end = if i + 1 < g.len() {
            g[i + 1]
        } else {
            len
        };
        proof {
            assert(start < end);
            assert(is_char_boundary(b, start as int));
            if i + 1 < g.len() {
                assert(is_char_boundary(b, g@[i + 1] as int));
            } else {
                assert(is_char_boundary(b, b.len() as int));
            }
            lemma_boundary_in_prefix(b, end as int, start as int);
        }
        let (head, _) = s.split_at(end);
        let (_, c) = head.split_at(start);
        let cb = c.as_bytes();
        proof {
            assert(head.spec_bytes() =~= b.subrange(0, end as int));
            assert(cb@ =~= cluster_at(b, g@, i as int));
            assert(cb@.len() > 0);
            assert(c@ == decode_utf8(cb@));
            if cb@.len() == 1 {
                assert(cb@ =~= seq![cb@[0]]);
            }
        }
        if cb.len() == 1 && cb[0] == 10u8 {
            pos.row = pos.row.saturating_add(1);
            pos.col = 0;
        } else {
            let cw = if cb.len() == 1 && cb[0] == 9u8 {
                TAB_STOP - pos.col % TAB_STOP
            } else {
                width(c, &mut esc_seq)
            };
            pos.col = pos.col.saturating_add(cw);
            if pos.col > COLS {
                pos.row = pos.row.saturating_add(1);
                pos.col = cw;
            }
        }
        i = i + 1;
    }
    if pos.col == COLS {
        pos.col = 0;
        pos.row = pos.row.saturating_add(1);
    }
    pos
}

} // verus!
