use vstd::prelude::*;
use vstd::string::StringSliceAdditionalSpecFns;
use crate::constants::{BUFFER_HEIGHT, BUFFER_WIDTH};

verus! {

/// The sixteen text-mode colours.
#[derive(Clone, Copy, PartialEq, Eq, Structural, Debug)]
pub enum Color {
    Black,
    Blue,
    Green,
    Cyan,
    Red,
    Magenta,
    Brown,
    LightGray,
    DarkGray,
    LightBlue,
    LightGreen,
    LightCyan,
    LightRed,
    Pink,
    Yellow,
    White,
}

impl Color {
    /// The hardware number of the colour.
    pub open spec fn spec_value(self) -> u8 {
        match self {
            Color::Black => 0,
            Color::Blue => 1,
            Color::Green => 2,
            Color::Cyan => 3,
            Color::Red => 4,
            Color::Magenta => 5,
            Color::Brown => 6,
            Color::LightGray => 7,
            Color::DarkGray => 8,
            Color::LightBlue => 9,
            Color::LightGreen => 10,
            Color::LightCyan => 11,
            Color::LightRed => 12,
            Color::Pink => 13,
            Color::Yellow => 14,
            Color::White => 15,
        }
    }

    pub fn value(self) -> (r: u8)
        ensures
            r == self.spec_value(),
            r < 16,
    {
        match self {
            Color::Black => 0,
            Color::Blue => 1,
            Color::Green => 2,
            Color::Cyan => 3,
            Color::Red => 4,
            Color::Magenta => 5,
            Color::Brown => 6,
            Color::LightGray => 7,
            Color::DarkGray => 8,
            Color::LightBlue => 9,
            Color::LightGreen => 10,
            Color::LightCyan => 11,
            Color::LightRed => 12,
            Color::Pink => 13,
            Color::Yellow => 14,
            Color::White => 15,
        }
    }
}

/// A foreground/background attribute byte: foreground in the low nibble,
/// background in the high nibble.
#[derive(Clone, Copy, PartialEq, Eq, Structural, Debug)]
pub struct ColorCode(pub u8);

impl ColorCode {
    pub fn new(foreground: Color, background: Color) -> (r: ColorCode)
        ensures
            r.0 == foreground.spec_value() + 16 * background.spec_value(),
    {
        ColorCode(foreground.value() + 16 * background.value())
    }
}

/// One cell of the display: a character code and its attribute.
#[derive(Clone, Copy, PartialEq, Eq, Structural, Debug)]
pub struct ScreenChar {
    pub ascii_character: u8,
    pub color_code: ColorCode,
}

/// Byte written in place of anything outside printable ASCII.
pub const REPLACEMENT_GLYPH: u8 = 0xfe;

/// What a written byte shows on screen: printable ASCII as itself, anything
/// else as the replacement glyph.
pub open spec fn glyph(b: u8) -> u8 {
    if (0x20 <= b && b <= 0x7e) || b == 0x0a {
        b
    } else {
        REPLACEMENT_GLYPH
    }
}

pub open spec fn cell_index(row: int, col: int) -> int {
    row * BUFFER_WIDTH + col
}

pub open spec fn blank(color: ColorCode) -> ScreenChar {
    ScreenChar { ascii_character: 0x20, color_code: color }
}

pub open spec fn blank_cells(color: ColorCode, n: nat) -> Seq<ScreenChar> {
    Seq::new(n, |i: int| blank(color))
}

/// Abstract state of the display: cursor, current colour, and the grid of
/// cells stored row after row.
pub struct Screen {
    pub row: int,
    pub col: int,
    pub color: ColorCode,
    pub cells: Seq<ScreenChar>,
}

impl Screen {
    pub open spec fn wf(self) -> bool {
        &&& self.cells.len() == BUFFER_HEIGHT * BUFFER_WIDTH
        &&& 0 <= self.row < BUFFER_HEIGHT
        &&& 0 <= self.col <= BUFFER_WIDTH
    }

    /// The cell at `row`, `col`.
    pub open spec fn at(self, row: int, col: int) -> ScreenChar {
        self.cells[cell_index(row, col)]
    }

    /// Cells of one row, left to right.
    pub open spec fn row_cells(self, row: int) -> Seq<ScreenChar> {
        self.cells.subrange(cell_index(row, 0), cell_index(row + 1, 0))
    }

    /// Moves to the start of the next row; on the last row every row moves
    /// up by one and the last row is blanked.
    pub open spec fn new_line(self) -> Screen {
        if self.row < BUFFER_HEIGHT - 1 {
            Screen { row: self.row + 1, col: 0, ..self }
        } else {
            Screen {
                col: 0,
                cells: self.cells.subrange(BUFFER_WIDTH as int, (BUFFER_HEIGHT * BUFFER_WIDTH) as int)
                    + blank_cells(self.color, BUFFER_WIDTH as nat),
                ..self
            }
        }
    }

    /// Effect of `write_byte`: a newline moves to the next row; any other
    /// byte is shown through `glyph` at the cursor, wrapping first when the
    /// row is full.
    pub open spec fn put(self, b: u8) -> Screen {
        if b == 0x0a {
            self.new_line()
        } else {
            let s = if self.col >= BUFFER_WIDTH { self.new_line() } else { self };
            Screen {
                col: s.col + 1,
                cells: s.cells.update(
                    cell_index(s.row, s.col),
                    ScreenChar { ascii_character: glyph(b), color_code: s.color },
                ),
                ..s
            }
        }
    }

    /// Effect of `write_string` on the bytes `bytes`.
    pub open spec fn put_str(self, bytes: Seq<u8>) -> Screen
        decreases bytes.len(),
    {
        if bytes.len() == 0 {
            self
        } else {
            self.put_str(bytes.drop_last()).put(bytes.last())
        }
    }

    /// Effect of `backspace`.
    pub open spec fn backspace(self) -> Screen {
        if self.col > 0 {
            Screen {
                col: self.col - 1,
                cells: self.cells.update(cell_index(self.row, self.col - 1), blank(self.color)),
                ..self
            }
        } else {
            self
        }
    }

    /// `n` backspaces.
    pub open spec fn backspaces(self, n: nat) -> Screen
        decreases n,
    {
        if n == 0 {
            self
        } else {
            self.backspaces((n - 1) as nat).backspace()
        }
    }

    /// Effect of `clear_screen`.
    pub open spec fn cleared(self) -> Screen {
        Screen {
            row: 0,
            col: 0,
            cells: blank_cells(self.color, (BUFFER_HEIGHT * BUFFER_WIDTH) as nat),
            ..self
        }
    }
}

/// The text display: a grid of cells, a cursor and the colour used for new
/// text. Every write lands in the grid at once.
pub struct Writer {
    pub column_position: usize,
    pub row_position: usize,
    pub color_code: ColorCode,
    pub buffer: Vec<ScreenChar>,
}

impl View for Writer {
    type V = Screen;

    open spec fn view(&self) -> Screen {
        Screen {
            row: self.row_position as int,
            col: self.column_position as int,
            color: self.color_code,
            cells: self.buffer@,
        }
    }
}

impl Writer {
    pub open spec fn wf(&self) -> bool {
        self@.wf()
    }

    /// A blank display in `color_code`, cursor at the origin.
    pub fn new(color_code: ColorCode) -> (w: Writer)
        ensures
            w.wf(),
            w@.row == 0,
            w@.col == 0,
            w@.color == color_code,
            w@.cells == blank_cells(color_code, (BUFFER_HEIGHT * BUFFER_WIDTH) as nat),
    {
        let mut buffer: Vec<ScreenChar> = Vec::new();
        let blank_char = ScreenChar { ascii_character: 0x20u8, color_code };
        let total: usize = BUFFER_HEIGHT * BUFFER_WIDTH;
        while buffer.len() < total
            invariant
                buffer.len() <= total,
                total == BUFFER_HEIGHT * BUFFER_WIDTH,
                blank_char == blank(color_code),
                buffer@ == blank_cells(color_code, buffer@.len()),
            decreases total - buffer.len(),
        {
            buffer.push(blank_char);
            assert(buffer@ =~= blank_cells(color_code, buffer@.len()));
        }
        Writer { column_position: 0, row_position: 0, color_code, buffer }
    }

    /// The character code in the cell at `row`, `col`.
    pub fn char_at(&self, row: usize, col: usize) -> (r: u8)
        requires
            self.wf(),
            row < BUFFER_HEIGHT,
            col < BUFFER_WIDTH,
        ensures
            r == self@.at(row as int, col as int).ascii_character,
    {
        self.buffer[row * BUFFER_WIDTH + col].ascii_character
    }

    /// Writes one byte at the cursor: a newline moves to the next row
    /// (scrolling on the last row); any other byte outside printable ASCII is
    /// shown as the replacement glyph; a full row wraps first.
    pub fn write_byte(&mut self, byte: u8)
        requires
            old(self).wf(),
        ensures
            final(self)@ == old(self)@.put(byte),
            final(self).wf(),
    {
        if byte == 0x0au8 {
            self.new_line();
        } else {
            let shown = if 0x20 <= byte && byte <= 0x7e { byte } else { REPLACEMENT_GLYPH };
            if self.column_position >= BUFFER_WIDTH {
                self.new_line();
            }
            let row = self.row_position;
            let col = self.column_position;
            self.buffer.set(row * BUFFER_WIDTH + col, ScreenChar { ascii_character: shown, color_code: self.color_code });
            self.column_position = col + 1;
        }
    }

    fn new_line(&mut self)
        requires
            old(self).wf(),
        ensures
            final(self)@ == old(self)@.new_line(),
            final(self).wf(),
    {
        if self.row_position < BUFFER_HEIGHT - 1 {
            self.row_position = self.row_position + 1;
        } else {
            let ghost old_cells = self.buffer@;
            let moved: usize = (BUFFER_HEIGHT - 1) * BUFFER_WIDTH;
            let mut i: usize = 0;
            while i < moved
                invariant
                    moved == (BUFFER_HEIGHT - 1) * BUFFER_WIDTH,
                    i <= moved,
                    old_cells == old(self).buffer@,
                    old_cells.len() == BUFFER_HEIGHT * BUFFER_WIDTH,
                    self.buffer@.len() == BUFFER_HEIGHT * BUFFER_WIDTH,
                    self.row_position == old(self).row_position,
                    self.column_position == old(self).column_position,
                    self.color_code == old(self).color_code,
                    forall|j: int| 0 <= j < i ==> self.buffer@[j] == old_cells[j + BUFFER_WIDTH],
                    forall|j: int| i <= j < BUFFER_HEIGHT * BUFFER_WIDTH ==> self.buffer@[j] == old_cells[j],
                decreases moved - i,
            {
                let c = self.buffer[i + BUFFER_WIDTH];
                self.buffer.set(i, c);
                i = i + 1;
            }
            self.clear_row(BUFFER_HEIGHT - 1);
            assert(self.buffer@ =~= old_cells.subrange(BUFFER_WIDTH as int, (BUFFER_HEIGHT * BUFFER_WIDTH) as int)
                + blank_cells(self.color_code, BUFFER_WIDTH as nat));
        }
        self.column_position = 0;
    }

    fn clear_row(&mut self, row: usize)
        requires
            old(self).buffer@.len() == BUFFER_HEIGHT * BUFFER_WIDTH,
            row < BUFFER_HEIGHT,
        ensures
            final(self).row_position == old(self).row_position,
            final(self).column_position == old(self).column_position,
            final(self).color_code == old(self).color_code,
            final(self).buffer@.len() == old(self).buffer@.len(),
            forall|j: int| 0 <= j < BUFFER_HEIGHT * BUFFER_WIDTH ==>
                #[trigger] final(self).buffer@[j] == if cell_index(row as int, 0) <= j < cell_index(row as int + 1, 0) {
                    blank(old(self).color_code)
                } else {
                    old(self).buffer@[j]
                },
    {
        let blank_char = ScreenChar { ascii_character: 0x20u8, color_code: self.color_code };
        let start: usize = row * BUFFER_WIDTH;
        let mut col: usize = 0;
        while col < BUFFER_WIDTH
            invariant
                start == row * BUFFER_WIDTH,
                row < BUFFER_HEIGHT,
                col <= BUFFER_WIDTH,
                blank_char == blank(old(self).color_code),
                self.row_position == old(self).row_position,
                self.column_position == old(self).column_position,
                self.color_code == old(self).color_code,
                self.buffer@.len() == old(self).buffer@.len(),
                old(self).buffer@.len() == BUFFER_HEIGHT * BUFFER_WIDTH,
                forall|j: int| 0 <= j < BUFFER_HEIGHT * BUFFER_WIDTH ==>
                    #[trigger] self.buffer@[j] == if start <= j < start + col {
                        blank(old(self).color_code)
                    } else {
                        old(self).buffer@[j]
                    },
            decreases BUFFER_WIDTH - col,
        {
            self.buffer.set(start + col, blank_char);
            col = col + 1;
        }
    }

    /// Writes `s` byte by byte; each byte outside printable ASCII and newline
    /// is shown as the replacement glyph.
    pub fn write_string(&mut self, s: &str)
        requires
            old(self).wf(),
        ensures
            final(self)@ == old(self)@.put_str(s.spec_bytes()),
            final(self).wf(),
    {
        let bytes = s.as_bytes();
        self.write_bytes(bytes);
    }

    /// As `write_string`, on raw bytes.
    pub fn write_bytes(&mut self, bytes: &[u8])
        requires
            old(self).wf(),
        ensures
            final(self)@ == old(self)@.put_str(bytes@),
            final(self).wf(),
    {
        let ghost start = self@;
        let mut i: usize = 0;
        while i < bytes.len()
            invariant
                i <= bytes@.len(),
                self.wf(),
                self@ == start.put_str(bytes@.take(i as int)),
            decreases bytes@.len() - i,
        {
            self.write_byte(bytes[i]);
            proof {
                assert(bytes@.take(i + 1).drop_last() =~= bytes@.take(i as int));
            }
            i = i + 1;
        }
        proof {
            assert(bytes@.take(i as int) =~= bytes@);
        }
    }

    /// Removes the character left of the cursor on the current row; does
    /// nothing at the start of a row.
    pub fn backspace(&mut self)
        requires
            old(self).wf(),
        ensures
            final(self)@ == old(self)@.backspace(),
            final(self).wf(),
    {
        if self.column_position > 0 {
            self.column_position = self.column_position - 1;
            let row = self.row_position;
            let col = self.column_position;
            self.buffer.set(row * BUFFER_WIDTH + col, ScreenChar { ascii_character: 0x20u8, color_code: self.color_code });
        }
    }

    /// Blanks every cell and moves the cursor to the origin.
    pub fn clear_screen(&mut self)
        requires
            old(self).wf(),
        ensures
            final(self)@ == old(self)@.cleared(),
            final(self).wf(),
    {
        let ghost color = self.color_code;
        let mut row: usize = 0;
        while row < BUFFER_HEIGHT
            invariant
                row <= BUFFER_HEIGHT,
                self.color_code == color,
                self.buffer@.len() == BUFFER_HEIGHT * BUFFER_WIDTH,
                forall|j: int| 0 <= j < row * BUFFER_WIDTH ==> #[trigger] self.buffer@[j] == blank(color),
            decreases BUFFER_HEIGHT - row,
        {
            self.clear_row(row);
            row = row + 1;
        }
        self.column_position = 0;
        self.row_position = 0;
        assert(self.buffer@ =~= blank_cells(color, (BUFFER_HEIGHT * BUFFER_WIDTH) as nat));
    }
}

/// Blanks the whole display and moves the cursor to the origin.
pub fn clear_screen(writer: &mut Writer)
    requires
        old(writer).wf(),
    ensures
        final(writer)@ == old(writer)@.cleared(),
        final(writer).wf(),
{
    writer.clear_screen();
}

/// Erases the character left of the cursor, within the current row.
pub fn backspace(writer: &mut Writer)
    requires
        old(writer).wf(),
    ensures
        final(writer)@ == old(writer)@.backspace(),
        final(writer).wf(),
{
    writer.backspace();
}

/// A newline on the last row scrolls: every row takes the contents of the
/// row below it, the top row's contents are gone, the last row is blank, the
/// display keeps its number of rows and the cursor stays on the last row.
pub proof fn lemma_newline_scrolls(s: Screen)
    requires
        s.wf(),
        s.row == BUFFER_HEIGHT - 1,
    ensures
        s.put(0x0a).wf(),
        s.put(0x0a).cells.len() == s.cells.len(),
        s.put(0x0a).row == BUFFER_HEIGHT - 1,
        s.put(0x0a).col == 0,
        forall|r: int| 0 <= r < BUFFER_HEIGHT - 1 ==> #[trigger] s.put(0x0a).row_cells(r) == s.row_cells(r + 1),
        s.put(0x0a).row_cells(BUFFER_HEIGHT - 1) == blank_cells(s.color, BUFFER_WIDTH as nat),
{
    let t = s.put(0x0a);
    assert forall|r: int| 0 <= r < BUFFER_HEIGHT - 1 implies #[trigger] t.row_cells(r) == s.row_cells(r + 1) by {
        assert(t.row_cells(r) =~= s.row_cells(r + 1));
    }
    assert(t.row_cells(BUFFER_HEIGHT - 1) =~= blank_cells(s.color, BUFFER_WIDTH as nat));
}

/// A newline above the last row moves the cursor down one row and changes
/// no cell.
pub proof fn lemma_newline_moves_down(s: Screen)
    requires
        s.wf(),
        s.row < BUFFER_HEIGHT - 1,
    ensures
        s.put(0x0a) == (Screen { row: s.row + 1, col: 0, ..s }),
{
}

/// Each of `lines` followed by a newline.
pub open spec fn lines_text(lines: Seq<Seq<u8>>) -> Seq<u8>
    decreases lines.len(),
{
    if lines.len() == 0 {
        Seq::empty()
    } else {
        lines_text(lines.drop_last()) + lines.last() + seq![0x0au8]
    }
}

/// A line that fits a row and holds printable ASCII only.
pub open spec fn plain_line(l: Seq<u8>) -> bool {
    &&& l.len() <= BUFFER_WIDTH
    &&& forall|i: int| 0 <= i < l.len() ==> 0x20 <= #[trigger] l[i] <= 0x7e
}

/// Column `c` of a row showing `l` in `color`, blank past its end.
pub open spec fn text_cell(l: Seq<u8>, c: int, color: ColorCode) -> ScreenChar {
    if c < l.len() {
        ScreenChar { ascii_character: l[c], color_code: color }
    } else {
        blank(color)
    }
}

proof fn lemma_put_str_concat(s: Screen, a: Seq<u8>, b: Seq<u8>)
    ensures
        s.put_str(a + b) == s.put_str(a).put_str(b),
    decreases b.len(),
{
    if b.len() == 0 {
        assert(a + b =~= a);
    } else {
        lemma_put_str_concat(s, a, b.drop_last());
        assert((a + b).drop_last() =~= a + b.drop_last());
        assert((a + b).last() == b.last());
    }
}

proof fn lemma_put_plain_line(s: Screen, l: Seq<u8>)
    requires
        s.wf(),
        s.col == 0,
        plain_line(l),
    ensures
        s.put_str(l).wf(),
        s.put_str(l).row == s.row,
        s.put_str(l).col == l.len(),
        s.put_str(l).color == s.color,
        forall|r: int, c: int| 0 <= r < BUFFER_HEIGHT && 0 <= c < BUFFER_WIDTH ==>
            #[trigger] s.put_str(l).at(r, c) == if r == s.row && c < l.len() {
                ScreenChar { ascii_character: l[c], color_code: s.color }
            } else {
                s.at(r, c)
            },
    decreases l.len(),
{
    if l.len() > 0 {
        let init = l.drop_last();
        assert(plain_line(init)) by {
            assert forall|i: int| 0 <= i < init.len() implies 0x20 <= #[trigger] init[i] <= 0x7e by {
                assert(init[i] == l[i]);
            }
        }
        lemma_put_plain_line(s, init);
        let m = s.put_str(init);
        let k = l.len() - 1;
        assert(0x20 <= l[k] <= 0x7e);
        assert(s.put_str(l) == m.put(l[k]));
        assert forall|r: int, c: int| 0 <= r < BUFFER_HEIGHT && 0 <= c < BUFFER_WIDTH implies
            #[trigger] s.put_str(l).at(r, c) == if r == s.row && c < l.len() {
                ScreenChar { ascii_character: l[c], color_code: s.color }
            } else {
                s.at(r, c)
            } by {
            if r == s.row && c == k {
            } else {
                assert(cell_index(r, c) != cell_index(s.row, k));
                assert(m.at(r, c) == if r == s.row && c < init.len() {
                    ScreenChar { ascii_character: init[c], color_code: s.color }
                } else {
                    s.at(r, c)
                });
                if r == s.row && c < k {
                    assert(init[c] == l[c]);
                }
            }
        }
    }
}

/// Writing newline-terminated lines of printable text onto a blank display
/// keeps the last of them on screen: once there are more lines than rows
/// the earliest ones have scrolled off the top, the rows above the cursor
/// show the most recent lines in order, every other row is blank, and the
/// display keeps its number of rows.
pub proof fn lemma_lines_scroll(s: Screen, ls: Seq<Seq<u8>>)
    requires
        s.wf(),
        s.row == 0,
        s.col == 0,
        s.cells == blank_cells(s.color, (BUFFER_HEIGHT * BUFFER_WIDTH) as nat),
        forall|i: int| 0 <= i < ls.len() ==> plain_line(#[trigger] ls[i]),
    ensures
        ({
            let t = s.put_str(lines_text(ls));
            let row = if ls.len() < BUFFER_HEIGHT - 1 { ls.len() as int } else { BUFFER_HEIGHT - 1 };
            let top = ls.len() - row;
            &&& t.wf()
            &&& t.cells.len() == BUFFER_HEIGHT * BUFFER_WIDTH
            &&& t.row == row
            &&& t.col == 0
            &&& t.color == s.color
            &&& forall|r: int, c: int| 0 <= r < BUFFER_HEIGHT && 0 <= c < BUFFER_WIDTH ==>
                #[trigger] t.at(r, c) == if r < row {
                    text_cell(ls[top + r], c, s.color)
                } else {
                    blank(s.color)
                }
        }),
    decreases ls.len(),
{
    if ls.len() > 0 {
        let prev = ls.drop_last();
        let l = ls.last();
        assert forall|i: int| 0 <= i < prev.len() implies plain_line(#[trigger] prev[i]) by {
            assert(prev[i] == ls[i]);
        }
        assert(plain_line(ls[ls.len() - 1]));
        lemma_lines_scroll(s, prev);
        let u = s.put_str(lines_text(prev));
        let n0 = prev.len() as int;
        let row0 = if n0 < BUFFER_HEIGHT - 1 { n0 } else { BUFFER_HEIGHT - 1 };
        let top0 = n0 - row0;
        lemma_put_str_concat(s, lines_text(prev) + l, seq![0x0au8]);
        lemma_put_str_concat(s, lines_text(prev), l);
        assert(seq![0x0au8].drop_last() =~= Seq::<u8>::empty());
        lemma_put_plain_line(u, l);
        let v = u.put_str(l);
        let t = v.put(0x0au8);
        assert(lines_text(ls) == lines_text(prev) + l + seq![0x0au8]);
        assert(v.put_str(seq![0x0au8]) == v.put_str(Seq::<u8>::empty()).put(0x0au8));
        assert(s.put_str(lines_text(ls)) == t);
        let n = ls.len() as int;
        let row = if n < BUFFER_HEIGHT - 1 { n } else { BUFFER_HEIGHT - 1 };
        let top = n - row;
        assert forall|r: int, c: int| 0 <= r < BUFFER_HEIGHT && 0 <= c < BUFFER_WIDTH implies
            #[trigger] t.at(r, c) == if r < row {
                text_cell(ls[top + r], c, s.color)
            } else {
                blank(s.color)
            } by {
            if row0 < BUFFER_HEIGHT - 1 {
                assert(t.at(r, c) == v.at(r, c));
                if r < row0 {
                    assert(ls[top + r] == prev[top0 + r]);
                } else if r == row0 {
                    assert(ls[top + r] == l);
                }
            } else {
                if r < BUFFER_HEIGHT - 1 {
                    assert(t.at(r, c) == v.at(r + 1, c));
                    if r + 1 < row0 {
                        assert(ls[top + r] == prev[top0 + r + 1]);
                    } else {
                        assert(ls[top + r] == l);
                    }
                } else {
                    assert(t.at(r, c) == blank(s.color));
                }
            }
        }
    } else {
        assert(lines_text(ls) =~= Seq::<u8>::empty());
    }
}

} // verus!
