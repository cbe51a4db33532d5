//! The text-mode writer's buffer logic: an 80x25 cell buffer of
//! (character, color) byte pairs, a column cursor on the bottom row, and the
//! scroll that a newline performs. The hardware edge mirrors the buffer into
//! video memory; everything that decides what the screen holds is here.

use vstd::prelude::*;

verus! {

/// Screen width in columns.
pub const COLUMNS: u64 = 80;

/// Screen height in rows.
pub const ROWS: u64 = 25;

/// Bytes in the cell buffer: two per cell.
pub const BUF_LEN: u64 = 4000;

/// The color code for white on black.
pub const WHITE: u8 = 15;

/// Byte offset of the character byte of cell (`row`, `col`).
pub open spec fn cell_index(row: int, col: int) -> int {
    (row * 80 + col) * 2
}

/// The buffer after scrolling one row up: rows shift up, the bottom row is
/// blank white-on-black.
pub open spec fn scrolled(buf: Seq<u8>) -> Seq<u8> {
    Seq::new(
        4000,
        |i: int|
            if i < 24 * 160 {
                buf[i + 160]
            } else if i % 2 == 0 {
                32u8
            } else {
                WHITE
            },
    )
}


/// The buffer and cursor after one byte is written at the cursor.
pub open spec fn spec_write_byte(buf: Seq<u8>, col: int, byte: u8, color: u8) -> (Seq<u8>, int) {
    if byte == 10 {
        (scrolled(buf), 0)
    } else {
        let base = if col >= 80 {
            scrolled(buf)
        } else {
            buf
        };
        let c = if col >= 80 {
            0int
        } else {
            col
        };
        (base.update(cell_index(24, c), byte).update(cell_index(24, c) + 1, color), c + 1)
    }
}

/// The byte a string write puts on screen: printable bytes and newlines go
/// through, anything else prints as the solid-block character.
pub open spec fn displayed_byte(b: u8) -> u8 {
    if (0x20 <= b <= 0x7e) || b == 10 {
        b
    } else {
        0xDBu8
    }
}

/// The buffer and cursor after a whole string is written, byte by byte.
pub open spec fn spec_write_string(buf: Seq<u8>, col: int, s: Seq<u8>, color: u8) -> (Seq<u8>, int)
    decreases s.len(),
{
    if s.len() == 0 {
        (buf, col)
    } else {
        let step = spec_write_byte(buf, col, displayed_byte(s[0]), color);
        spec_write_string(step.0, step.1, s.drop_first(), color)
    }
}

/// Writing one more byte extends a string write.
proof fn lemma_write_string_snoc(buf: Seq<u8>, col: int, s: Seq<u8>, x: u8, color: u8)
    ensures
        spec_write_string(buf, col, s.push(x), color) == ({
            let w = spec_write_string(buf, col, s, color);
            spec_write_byte(w.0, w.1, displayed_byte(x), color)
        }),
    decreases s.len(),
{
    if s.len() == 0 {
        assert(s.push(x)[0] == x);
        assert(s.push(x).drop_first() =~= Seq::<u8>::empty());
        let step = spec_write_byte(buf, col, displayed_byte(x), color);
        assert(spec_write_string(step.0, step.1, Seq::<u8>::empty(), color) == (step.0, step.1));
        assert(spec_write_string(buf, col, s, color) == (buf, col));
    } else {
        assert(s.push(x)[0] == s[0]);
        assert(s.push(x).drop_first() =~= s.drop_first().push(x));
        let step = spec_write_byte(buf, col, displayed_byte(s[0]), color);
        assert(spec_write_string(buf, col, s.push(x), color) == spec_write_string(
            step.0,
            step.1,
            s.drop_first().push(x),
            color,
        ));
        assert(spec_write_string(buf, col, s, color) == spec_write_string(
            step.0,
            step.1,
            s.drop_first(),
            color,
        ));
        lemma_write_string_snoc(step.0, step.1, s.drop_first(), x, color);
    }
}

/// The screen writer: the cell buffer and the cursor's column on the bottom
/// row, plus the background color the edge clears with.
pub struct Writer {
    pub buf: Vec<u8>,
    pub column_position: usize,
    pub bg_color: u8,
}

impl Writer {
    pub open spec fn wf(self) -> bool {
        &&& self.buf.len() == 4000
        &&& self.column_position <= 80
    }

    /// The character byte of cell (`row`, `col`).
    pub open spec fn char_at(self, row: int, col: int) -> u8 {
        self.buf@[cell_index(row, col)]
    }

    /// The color byte of cell (`row`, `col`).
    pub open spec fn color_at(self, row: int, col: int) -> u8 {
        self.buf@[cell_index(row, col) + 1]
    }

    /// A blank screen: every cell a white-on-black space, cursor at the
    /// start of the bottom row.
    pub fn new(bg_color: u8) -> (w: Writer)
        ensures
            w.wf(),
            w.column_position == 0,
            w.bg_color == bg_color,
            forall|i: int| 0 <= i < 4000 && i % 2 == 0 ==> w.buf@[i] == 32,
            forall|i: int| 0 <= i < 4000 && i % 2 == 1 ==> w.buf@[i] == WHITE,
    {
        let mut buf: Vec<u8> = Vec::new();
        let mut i: usize = 0;
        while i < 4000
            invariant
                i <= 4000,
                buf.len() == i,
                forall|j: int| 0 <= j < i && j % 2 == 0 ==> buf@[j] == 32,
                forall|j: int| 0 <= j < i && j % 2 == 1 ==> buf@[j] == WHITE,
            decreases 4000 - i,
        {
            if i % 2 == 0 {
                buf.push(32);
            } else {
                buf.push(WHITE);
            }
            i = i + 1;
        }
        Writer { buf, column_position: 0, bg_color }
    }

    /// Write one cell: its character and color; no other byte changes.
    pub fn set_char(&mut self, row: usize, col: usize, byte: u8, color: u8)
        requires
            old(self).wf(),
            row < 25,
            col < 80,
        ensures
            final(self).wf(),
            final(self).column_position == old(self).column_position,
            final(self).bg_color == old(self).bg_color,
            final(self).buf@ == old(self).buf@.update(
                cell_index(row as int, col as int),
                byte,
            ).update(cell_index(row as int, col as int) + 1, color),
    {
        let idx = (row * 80 + col) * 2;
        let ghost pre = self.buf@;
        self.buf.remove(idx);
        self.buf.insert(idx, byte);
        let ghost mid = self.buf@;
        self.buf.remove(idx + 1);
        self.buf.insert(idx + 1, color);
        proof {
            assert(mid =~= pre.update(idx as int, byte));
            assert(self.buf@ =~= mid.update(idx as int + 1, color));
        }
    }

    /// Read one cell back as its character and color.
    pub fn get_char(&self, row: usize, col: usize) -> (r: (u8, u8))
        requires
            self.wf(),
            row < 25,
            col < 80,
        ensures
            r.0 == self.char_at(row as int, col as int),
            r.1 == self.color_at(row as int, col as int),
    {
        let idx = (row * 80 + col) * 2;
        (self.buf[idx], self.buf[idx + 1])
    }

    /// Blank one row to white-on-black spaces; other rows are untouched.
    fn clear_row(&mut self, row: usize)
        requires
            old(self).wf(),
            row < 25,
        ensures
            final(self).wf(),
            final(self).column_position == old(self).column_position,
            final(self).bg_color == old(self).bg_color,
            final(self).buf.len() == 4000,
            forall|i: int|
                0 <= i < 4000 ==> final(self).buf@[i] == (if row as int * 160 <= i < row as int
                    * 160 + 160 {
                    if i % 2 == 0 {
                        32u8
                    } else {
                        WHITE
                    }
                } else {
                    old(self).buf@[i]
                }),
    {
        let mut col: usize = 0;
        while col < 80
            invariant
                self.wf(),
                row < 25,
                col <= 80,
                self.column_position == old(self).column_position,
                self.bg_color == old(self).bg_color,
                forall|i: int|
                    0 <= i < 4000 ==> self.buf@[i] == (if row as int * 160 <= i < row as int * 160
                        + 2 * col {
                        if i % 2 == 0 {
                            32u8
                        } else {
                            WHITE
                        }
                    } else {
                        old(self).buf@[i]
                    }),
            decreases 80 - col,
        {
            self.set_char(row, col, 32, WHITE);
            col = col + 1;
        }
    }

    /// Scroll one row: every row moves up, the bottom row is blanked, and
    /// the cursor returns to column 0.
    pub fn new_line(&mut self)
        requires
            old(self).wf(),
        ensures
            final(self).wf(),
            final(self).column_position == 0,
            final(self).bg_color == old(self).bg_color,
            final(self).buf@ == scrolled(old(self).buf@),
    {
        let mut row: usize = 1;
        while row < 25
            invariant
                self.wf(),
                1 <= row <= 25,
                self.bg_color == old(self).bg_color,
                forall|i: int|
                    0 <= i < 4000 ==> self.buf@[i] == (if i < (row - 1) * 160 {
                        old(self).buf@[i + 160]
                    } else {
                        old(self).buf@[i]
                    }),
            decreases 25 - row,
        {
            let mut col: usize = 0;
            while col < 80
                invariant
                    self.wf(),
                    1 <= row < 25,
                    col <= 80,
                    self.bg_color == old(self).bg_color,
                    forall|i: int|
                        0 <= i < 4000 ==> self.buf@[i] == (if i < (row - 1) * 160 + 2 * col {
                            old(self).buf@[i + 160]
                        } else {
                            old(self).buf@[i]
                        }),
                decreases 80 - col,
            {
                let (ch, color) = self.get_char(row, col);
                proof {
                    assert(cell_index(row as int, col as int) == (row - 1) * 160 + 2 * col + 160);
                    assert(self.char_at(row as int, col as int) == old(self).buf@[(row - 1) * 160
                        + 2 * col + 160]);
                    assert(self.color_at(row as int, col as int) == old(self).buf@[(row - 1) * 160
                        + 2 * col + 161]);
                }
                self.set_char(row - 1, col, ch, color);
                col = col + 1;
            }
            row = row + 1;
        }
        self.clear_row(24);
        self.column_position = 0;
        proof {
            assert(self.buf@ =~= scrolled(old(self).buf@));
        }
    }

    /// Write one byte at the cursor: a newline scrolls; a full bottom row
    /// scrolls first; otherwise the byte lands at the cursor's cell on the
    /// bottom row and the cursor advances.
    pub fn write_byte(&mut self, byte: u8, color: u8)
        requires
            old(self).wf(),
        ensures
            final(self).wf(),
            final(self).bg_color == old(self).bg_color,
            byte == 10 ==> final(self).buf@ == scrolled(old(self).buf@)
                && final(self).column_position == 0,
            byte != 10 ==> ({
                let base = if old(self).column_position >= 80 {
                    scrolled(old(self).buf@)
                } else {
                    old(self).buf@
                };
                let col = if old(self).column_position >= 80 {
                    0int
                } else {
                    old(self).column_position as int
                };
                &&& final(self).buf@ == base.update(cell_index(24, col), byte).update(
                    cell_index(24, col) + 1,
                    color,
                )
                &&& final(self).column_position == col + 1
            }),
    {
        if byte == 10 {
            self.new_line();
        } else {
            if self.column_position >= 80 {
                self.new_line();
            }
            let col = self.column_position;
            self.set_char(24, col, byte, color);
            self.column_position = col + 1;
        }
    }

    /// Write a string: printable bytes and newlines go through as they are;
    /// anything else prints as the solid-block character, as a visible sign
    /// of an unprintable byte.
    pub fn write_string(&mut self, s: &[u8], color: u8)
        requires
            old(self).wf(),
        ensures
            final(self).wf(),
            final(self).bg_color == old(self).bg_color,
            (final(self).buf@, final(self).column_position as int) == spec_write_string(
                old(self).buf@,
                old(self).column_position as int,
                s@,
                color,
            ),
    {
        let n = s.len();
        let mut i: usize = 0;
        while i < n
            invariant
                self.wf(),
                self.bg_color == old(self).bg_color,
                n == s.len(),
                i <= n,
                (self.buf@, self.column_position as int) == spec_write_string(
                    old(self).buf@,
                    old(self).column_position as int,
                    s@.take(i as int),
                    color,
                ),
            decreases n - i,
        {
            let byte = s[i];
            proof {
                lemma_write_string_snoc(
                    old(self).buf@,
                    old(self).column_position as int,
                    s@.take(i as int),
                    s@[i as int],
                    color,
                );
                assert(s@.take(i as int).push(s@[i as int]) =~= s@.take(i as int + 1));
            }
            if (0x20 <= byte && byte <= 0x7e) || byte == 10 {
                self.write_byte(byte, color);
            } else {
                self.write_byte(0xDB, color);
            }
            i = i + 1;
        }
        proof {
            assert(s@.take(n as int) =~= s@);
        }
    }

    /// Erase the cell before the cursor and step the cursor back; at column
    /// 0 nothing changes.
    pub fn delete_last(&mut self)
        requires
            old(self).wf(),
            old(self).column_position <= 80,
        ensures
            final(self).wf(),
            final(self).bg_color == old(self).bg_color,
            old(self).column_position == 0 ==> *final(self) == *old(self),
            old(self).column_position > 0 ==> final(self).column_position == old(
                self,
            ).column_position - 1 && final(self).buf@ == old(self).buf@.update(
                cell_index(24, old(self).column_position - 1),
                32u8,
            ).update(cell_index(24, old(self).column_position - 1) + 1, WHITE),
    {
        if self.column_position != 0 {
            let col = self.column_position - 1;
            if col < 80 {
                self.set_char(24, col, 32, WHITE);
            }
            self.column_position = col;
        }
    }
}

} // verus!
