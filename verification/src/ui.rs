//! The text user interface: colors, the double-buffered character screen,
//! and drawing areas that write, wrap and scroll text into the back buffer.

use vstd::prelude::*;
use vstd::string::{StringSliceAdditionalSpecFns, StrSliceExecFns};

verus! {

/// The sixteen text colors.
#[derive(Clone, Copy, Debug, PartialEq, Eq, Structural)]
pub enum Color {
    Black,
    Blue,
    Green,
    Cyan,
    Red,
    Magenta,
    Brown,
    LightGray,
    DarkGray,
    LightBlue,
    LightGreen,
    LightCyan,
    LightRed,
    LightMagenta,
    Yellow,
    White,
}

/// The VGA palette index of a color.
pub open spec fn spec_color_to_vga(c: Color) -> u8 {
    match c {
        Color::Black => 0,
        Color::Blue => 1,
        Color::Green => 2,
        Color::Cyan => 3,
        Color::Red => 4,
        Color::Magenta => 5,
        Color::Brown => 6,
        Color::LightGray => 7,
        Color::DarkGray => 8,
        Color::LightBlue => 9,
        Color::LightGreen => 10,
        Color::LightCyan => 11,
        Color::LightRed => 12,
        Color::LightMagenta => 13,
        Color::Yellow => 14,
        Color::White => 15,
    }
}

/// The 24-bit RGB value of a color.
pub open spec fn spec_color_to_rgb(c: Color) -> u32 {
    match c {
        Color::Black => 0x00000000,
        Color::Blue => 0x000000AA,
        Color::Green => 0x0000AA00,
        Color::Cyan => 0x0000AAAA,
        Color::Red => 0x00AA0000,
        Color::Magenta => 0x00AA00AA,
        Color::Brown => 0x00AA5500,
        Color::LightGray => 0x00AAAAAA,
        Color::DarkGray => 0x00555555,
        Color::LightBlue => 0x005555FF,
        Color::LightGreen => 0x0055FF55,
        Color::LightCyan => 0x0055FFFF,
        Color::LightRed => 0x00FF5555,
        Color::LightMagenta => 0x00FF55FF,
        Color::Yellow => 0x00FFFF55,
        Color::White => 0x00FFFFFF,
    }
}

/// The VGA palette index of an RGB value: exact palette colors map to their
/// index, anything else to light gray (7).
pub open spec fn spec_rgb_to_vga(rgb: u32) -> u8 {
    if rgb == 0x00000000 { 0 }
    else if rgb == 0x000000AA { 1 }
    else if rgb == 0x0000AA00 { 2 }
    else if rgb == 0x0000AAAA { 3 }
    else if rgb == 0x00AA0000 { 4 }
    else if rgb == 0x00AA00AA { 5 }
    else if rgb == 0x00AA5500 { 6 }
    else if rgb == 0x00AAAAAA { 7 }
    else if rgb == 0x00555555 { 8 }
    else if rgb == 0x005555FF { 9 }
    else if rgb == 0x0055FF55 { 10 }
    else if rgb == 0x0055FFFF { 11 }
    else if rgb == 0x00FF5555 { 12 }
    else if rgb == 0x00FF55FF { 13 }
    else if rgb == 0x00FFFF55 { 14 }
    else if rgb == 0x00FFFFFF { 15 }
    else { 7 }
}

/// The VGA palette index of a color.
pub fn color_to_vga(c: Color) -> (r: u8)
    ensures
        r == spec_color_to_vga(c),
{
    match c {
        Color::Black => 0,
        Color::Blue => 1,
        Color::Green => 2,
        Color::Cyan => 3,
        Color::Red => 4,
        Color::Magenta => 5,
        Color::Brown => 6,
        Color::LightGray => 7,
        Color::DarkGray => 8,
        Color::LightBlue => 9,
        Color::LightGreen => 10,
        Color::LightCyan => 11,
        Color::LightRed => 12,
        Color::LightMagenta => 13,
        Color::Yellow => 14,
        Color::White => 15,
    }
}

/// The VGA palette index of an RGB value.
pub fn rgb_to_vga(rgb: u32) -> (r: u8)
    ensures
        r == spec_rgb_to_vga(rgb),
{
    match rgb {
        0x00000000 => 0,
        0x000000AA => 1,
        0x0000AA00 => 2,
        0x0000AAAA => 3,
        0x00AA0000 => 4,
        0x00AA00AA => 5,
        0x00AA5500 => 6,
        0x00AAAAAA => 7,
        0x00555555 => 8,
        0x005555FF => 9,
        0x0055FF55 => 10,
        0x0055FFFF => 11,
        0x00FF5555 => 12,
        0x00FF55FF => 13,
        0x00FFFF55 => 14,
        0x00FFFFFF => 15,
        _ => 7,
    }
}

/// The RGB value of a color.
pub fn color_to_rgb(c: Color) -> (r: u32)
    ensures
        r == spec_color_to_rgb(c),
{
    match c {
        Color::Black => 0x00000000,
        Color::Blue => 0x000000AA,
        Color::Green => 0x0000AA00,
        Color::Cyan => 0x0000AAAA,
        Color::Red => 0x00AA0000,
        Color::Magenta => 0x00AA00AA,
        Color::Brown => 0x00AA5500,
        Color::LightGray => 0x00AAAAAA,
        Color::DarkGray => 0x00555555,
        Color::LightBlue => 0x005555FF,
        Color::LightGreen => 0x0055FF55,
        Color::LightCyan => 0x0055FFFF,
        Color::LightRed => 0x00FF5555,
        Color::LightMagenta => 0x00FF55FF,
        Color::Yellow => 0x00FFFF55,
        Color::White => 0x00FFFFFF,
    }
}

/// Drawing a color through its RGB value on a VGA text screen shows the
/// color's own palette entry.
pub proof fn rgb_round_trip(c: Color)
    ensures
        spec_rgb_to_vga(spec_color_to_rgb(c)) == spec_color_to_vga(c),
{
}

/// The VGA text-mode cell for a character: code point below 128 or `?`,
/// background in the high attribute nibble, foreground in the low one.
pub open spec fn spec_vga_cell(c: char, fg: u32, bg: u32) -> u16 {
    let ascii: u8 = if (c as u32) < 128 { c as u8 } else { 63u8 };
    let attr: u8 = ((spec_rgb_to_vga(bg) << 4u8) | (spec_rgb_to_vga(fg) & 0x0Fu8)) as u8;
    ((ascii as u16) | ((attr as u16) << 8u16)) as u16
}

/// The VGA text-mode cell that shows `c` in colors `fg` on `bg`.
pub fn vga_cell(c: char, fg: u32, bg: u32) -> (r: u16)
    ensures
        r == spec_vga_cell(c, fg, bg),
{
    let ascii: u8 = if (c as u32) < 128 { c as u8 } else { 63u8 };
    let vga_fg = rgb_to_vga(fg);
    let vga_bg = rgb_to_vga(bg);
    let attr: u8 = (vga_bg << 4) | (vga_fg & 0x0F);
    (ascii as u16) | ((attr as u16) << 8)
}

/// One character cell of the screen.
#[derive(Clone, Copy, Debug, PartialEq, Eq, Structural)]
pub struct ScreenChar {
    pub c: char,
    pub fg: Color,
    pub bg: Color,
}

/// A blank white-on-black cell.
pub open spec fn blank() -> ScreenChar {
    ScreenChar { c: ' ', fg: Color::White, bg: Color::Black }
}

impl ScreenChar {
    /// A blank white-on-black cell.
    pub fn blank() -> (r: ScreenChar)
        ensures
            r == blank(),
    {
        ScreenChar { c: ' ', fg: Color::White, bg: Color::Black }
    }
}

/// Height of the task table.
pub const TASK_HEIGHT: usize = 7;
/// Height of the log area.
pub const LOG_HEIGHT: usize = 10;
/// Width reserved for the status column.
pub const STATUS_WIDTH: usize = 32;
/// Width of one task cell in the task table.
pub const TASK_LEN: usize = 34;

/// A rectangle of the screen with a cursor: `offset` is its top-left cell,
/// `size` its width and height, `pos` the cursor relative to `offset`.
/// Scrolling areas move their text up when the cursor passes the bottom.
#[derive(Clone, Copy, Debug)]
pub struct DrawArea {
    pub offset: (usize, usize),
    pub size: (usize, usize),
    pub pos: (usize, usize),
    pub scroll: bool,
}

/// `a - b` or zero.
pub open spec fn sat(a: int, b: int) -> int {
    if a >= b { a - b } else { 0 }
}

/// Number of task columns on a screen `cols` wide.
pub open spec fn spec_task_columns(cols: int) -> int {
    sat(cols, STATUS_WIDTH + 1) / (TASK_LEN + 1)
}

/// Width of the task table.
pub open spec fn spec_task_width(cols: int) -> int {
    spec_task_columns(cols) * (TASK_LEN + 1) + 1
}

/// A fresh area at `offset` of size `size`.
pub open spec fn area(offset: (int, int), size: (int, int), scroll: bool) -> DrawArea {
    DrawArea {
        offset: (offset.0 as usize, offset.1 as usize),
        size: (size.0 as usize, size.1 as usize),
        pos: (0, 0),
        scroll,
    }
}

/// The status area rows to the right of the task table.
pub open spec fn spec_task_side(cols: int, row: int, rows: int) -> DrawArea {
    let tw = spec_task_width(cols);
    area((tw + 1, row), (sat(cols, tw + 1), rows), false)
}

/// Index of the cell at `p` of area `a` on a screen `w` columns wide.
pub open spec fn cell_index(a: DrawArea, w: int, p: (int, int)) -> int {
    (a.offset.1 + p.1) * w + a.offset.0 + p.0
}

/// The area fits in the screen's width and its cells are addressable.
pub open spec fn area_fits(a: DrawArea, w: int) -> bool {
    &&& w > 0
    &&& a.offset.0 + a.size.0 <= w
    &&& (a.offset.1 + a.size.1 + 1) * w <= usize::MAX
}

impl DrawArea {
    /// An empty area at the origin.
    pub fn invalid() -> (r: DrawArea)
        ensures
            r == area((0, 0), (0, 0), false),
    {
        Self::new(0, 0, 0, 0, false)
    }

    fn new(ox: usize, oy: usize, sw: usize, sh: usize, scroll: bool) -> (r: DrawArea)
        ensures
            r == area((ox as int, oy as int), (sw as int, sh as int), scroll),
    {
        DrawArea { offset: (ox, oy), size: (sw, sh), pos: (0, 0), scroll }
    }

    fn task_columns(cols: usize) -> (r: usize)
        ensures
            r == spec_task_columns(cols as int),
    {
        cols.saturating_sub(STATUS_WIDTH + 1) / (TASK_LEN + 1)
    }

    fn task_width(cols: usize) -> (r: usize)
        ensures
            r == spec_task_width(cols as int),
    {
        let c = Self::task_columns(cols);
        proof {
            assert(c * (TASK_LEN + 1) <= cols) by (nonlinear_arith)
                requires c == sat(cols as int, STATUS_WIDTH + 1) / (TASK_LEN + 1);
        }
        c * (TASK_LEN + 1) + 1
    }

    fn task_side(cols: usize, row: usize, rows: usize) -> (r: DrawArea)
        ensures
            r == spec_task_side(cols as int, row as int, rows as int),
    {
        let tw = Self::task_width(cols);
        proof {
            assert(spec_task_columns(cols as int) * (TASK_LEN + 1) <= cols) by (nonlinear_arith)
                requires spec_task_columns(cols as int) == sat(cols as int, STATUS_WIDTH + 1) / (TASK_LEN + 1);
        }
        let width = cols.saturating_sub(tw + 1);
        Self::new(tw + 1, row, width, rows, false)
    }

    /// The display-mode line beside the task table.
    pub fn video_mode(cols: usize) -> (r: DrawArea)
        ensures
            r == spec_task_side(cols as int, 0, 1),
    {
        Self::task_side(cols, 0, 1)
    }

    /// The IP address line.
    pub fn ip(cols: usize) -> (r: DrawArea)
        ensures
            r == spec_task_side(cols as int, 1, 1),
    {
        Self::task_side(cols, 1, 1)
    }

    /// The two network speed lines.
    pub fn net_speed(cols: usize) -> (r: DrawArea)
        ensures
            r == spec_task_side(cols as int, 2, 2),
    {
        Self::task_side(cols, 2, 2)
    }

    /// The uptime line.
    pub fn time(cols: usize) -> (r: DrawArea)
        ensures
            r == spec_task_side(cols as int, 4, 1),
    {
        Self::task_side(cols, 4, 1)
    }

    /// The memory usage line.
    pub fn memory(cols: usize) -> (r: DrawArea)
        ensures
            r == spec_task_side(cols as int, 5, 1),
    {
        Self::task_side(cols, 5, 1)
    }

    /// The task table at the top left.
    pub fn tasks(cols: usize) -> (r: DrawArea)
        ensures
            r == area((0, 0), (spec_task_width(cols as int), TASK_HEIGHT as int), false),
    {
        Self::new(0, 0, Self::task_width(cols), TASK_HEIGHT, false)
    }

    /// The scrolling log area at the bottom, indented by two columns.
    pub fn logs(cols: usize, rows: usize) -> (r: DrawArea)
        ensures
            r == area((2, sat(rows as int, LOG_HEIGHT as int)), (sat(cols as int, 3), LOG_HEIGHT as int), true),
    {
        Self::new(2, rows.saturating_sub(LOG_HEIGHT), cols.saturating_sub(3), LOG_HEIGHT, true)
    }

    /// The area between the task table and the logs, where actions draw.
    pub fn content(cols: usize, rows: usize) -> (r: DrawArea)
        ensures
            r == area(
                (0, 1 + TASK_HEIGHT as int),
                (cols as int, sat(rows as int, 1 + TASK_HEIGHT + LOG_HEIGHT)),
                false,
            ),
    {
        let offset = 1 + TASK_HEIGHT;
        Self::new(0, offset, cols, rows.saturating_sub(offset + LOG_HEIGHT), false)
    }

    /// Width and height.
    pub fn size(&self) -> (r: (usize, usize))
        ensures
            r == self.size,
    {
        self.size
    }

    fn idx(&self, x: usize, y: usize, cols: usize) -> (r: usize)
        requires
            area_fits(*self, cols as int),
            x <= self.size.0,
            y <= self.size.1,
        ensures
            r == cell_index(*self, cols as int, (x as int, y as int)),
    {
        proof {
            assert((self.offset.1 + y) * cols + cols <= (self.offset.1 + self.size.1 + 1) * cols) by (nonlinear_arith)
                requires y <= self.size.1, cols >= 0;
            assert(self.offset.1 + y <= (self.offset.1 + y) * cols) by (nonlinear_arith)
                requires cols >= 1, self.offset.1 + y >= 0;
        }
        (self.offset.1 + y) * cols + self.offset.0 + x
    }

    /// Moves the cursor to the start of the next line.
    pub fn newline(&mut self)
        requires
            old(self).pos.1 < usize::MAX,
        ensures
            *final(self) == (DrawArea { pos: (0, (old(self).pos.1 + 1) as usize), ..*old(self) }),
    {
        self.pos.0 = 0;
        self.pos.1 = self.pos.1 + 1;
    }

    /// Moves the cursor `n` cells right.
    pub fn advance(&mut self, n: usize)
        requires
            old(self).pos.0 + n <= usize::MAX,
        ensures
            *final(self) == (DrawArea { pos: ((old(self).pos.0 + n) as usize, old(self).pos.1), ..*old(self) }),
    {
        self.pos.0 = self.pos.0 + n;
    }

    /// Blanks every cell of the area in the back buffer and homes the cursor;
    /// a cell whose index lies past the end of the buffer is skipped.
    pub fn clear(&mut self, back: &mut Vec<ScreenChar>, cols: usize)
        requires
            clear_fits(*old(self), cols as int),
        ensures
            *final(self) == (DrawArea { pos: (0, 0), ..*old(self) }),
            final(back)@ == spec_clear(old(back)@, *old(self), cols as int),
    {
        self.pos = (0, 0);
        let ghost b0 = back@;
        let ghost a = *old(self);
        let ghost w = cols as int;
        let mut y: usize = 0;
        while y < self.size.1
            invariant
                clear_fits(a, cols as int),
                *self == (DrawArea { pos: (0, 0), ..a }),
                w == cols as int,
                y <= self.size.1,
                back@.len() == b0.len(),
                forall|i: int| 0 <= i < b0.len() ==> #[trigger] back@[i] == (if cleared_before(a, w, i, y as int, 0) {
                    blank()
                } else {
                    b0[i]
                }),
            decreases self.size.1 - y,
        {
            let mut x: usize = 0;
            while x < self.size.0
                invariant
                    clear_fits(a, cols as int),
                    *self == (DrawArea { pos: (0, 0), ..a }),
                    w == cols as int,
                    y < self.size.1,
                    x <= self.size.0,
                    back@.len() == b0.len(),
                    forall|i: int| 0 <= i < b0.len() ==> #[trigger] back@[i] == (if cleared_before(a, w, i, y as int, x as int) {
                        blank()
                    } else {
                        b0[i]
                    }),
                decreases self.size.0 - x,
            {
                proof {
                    assert((a.offset.1 + y) * w <= (a.offset.1 + a.size.1 - 1) * w) by (nonlinear_arith)
                        requires
                            y + 1 <= a.size.1,
                            w >= 0,
                    ;
                }
                let i = (self.offset.1 + y) * cols + self.offset.0 + x;
                if i < back.len() {
                    back.set(i, ScreenChar::blank());
                }
                proof {
                    assert(i == cell_index(a, w, (x as int, y as int)));
                    assert forall|j: int| 0 <= j < b0.len() implies #[trigger] back@[j] == (if cleared_before(
                        a,
                        w,
                        j,
                        y as int,
                        x + 1,
                    ) {
                        blank()
                    } else {
                        b0[j]
                    }) by {
                        if j == i {
                            assert(cleared_step(a, w, j, y as int, x as int + 1, x as int, y as int));
                        } else if cleared_before(a, w, j, y as int, x + 1) {
                            let (xx, yy) = choose|xx: int, yy: int| #[trigger] cleared_step(a, w, j, y as int, x + 1, xx, yy);
                            assert(cleared_step(a, w, j, y as int, x as int, xx, yy));
                        } else if cleared_before(a, w, j, y as int, x as int) {
                            let (xx, yy) = choose|xx: int, yy: int| #[trigger] cleared_step(a, w, j, y as int, x as int, xx, yy);
                            assert(cleared_step(a, w, j, y as int, x + 1, xx, yy));
                        }
                    }
                }
                x = x + 1;
            }
            proof {
                assert forall|j: int| 0 <= j < b0.len() implies #[trigger] back@[j] == (if cleared_before(
                    a,
                    w,
                    j,
                    y + 1,
                    0,
                ) {
                    blank()
                } else {
                    b0[j]
                }) by {
                    if cleared_before(a, w, j, y as int, a.size.0 as int) {
                        let (xx, yy) = choose|xx: int, yy: int| #[trigger] cleared_step(a, w, j, y as int, a.size.0 as int, xx, yy);
                        assert(cleared_step(a, w, j, y + 1, 0, xx, yy));
                    }
                    if cleared_before(a, w, j, y + 1, 0) {
                        let (xx, yy) = choose|xx: int, yy: int| #[trigger] cleared_step(a, w, j, y + 1, 0, xx, yy);
                        assert(cleared_step(a, w, j, y as int, a.size.0 as int, xx, yy));
                    }
                }
            }
            y = y + 1;
        }
        proof {
            assert forall|j: int| 0 <= j < b0.len() implies cleared_before(a, w, j, a.size.1 as int, 0) == is_area_cell(
                a,
                w,
                j,
            ) by {
                if cleared_before(a, w, j, a.size.1 as int, 0) {
                    let (xx, yy) = choose|xx: int, yy: int| #[trigger] cleared_step(a, w, j, a.size.1 as int, 0, xx, yy);
                    assert(area_cell_at(a, w, j, xx, yy));
                }
                if is_area_cell(a, w, j) {
                    let (xx, yy) = choose|xx: int, yy: int| #[trigger] area_cell_at(a, w, j, xx, yy);
                    assert(cleared_step(a, w, j, a.size.1 as int, 0, xx, yy));
                }
            }
            assert(back@ =~= spec_clear(b0, a, w));
        }
    }
}

/// The indexes of the area's cells can be computed without overflow.
pub open spec fn clear_fits(a: DrawArea, w: int) -> bool {
    a.size.0 == 0 || a.size.1 == 0 || {
        &&& a.offset.1 + a.size.1 - 1 <= usize::MAX
        &&& (a.offset.1 + a.size.1 - 1) * w + a.offset.0 + a.size.0 - 1 <= usize::MAX
    }
}

/// Cell `(x, y)` of the area has index `i`.
pub open spec fn area_cell_at(a: DrawArea, w: int, i: int, x: int, y: int) -> bool {
    0 <= x < a.size.0 && 0 <= y < a.size.1 && cell_index(a, w, (x, y)) == i
}

/// Whether `i` is the index of a cell of the area.
pub open spec fn is_area_cell(a: DrawArea, w: int, i: int) -> bool {
    exists|x: int, y: int| #[trigger] area_cell_at(a, w, i, x, y)
}

/// Cell `(x, y)`, with index `i`, comes before cell `(rx, ry)` in row order.
spec fn cleared_step(a: DrawArea, w: int, i: int, ry: int, rx: int, x: int, y: int) -> bool {
    0 <= x < a.size.0 && 0 <= y && (y < ry || (y == ry && x < rx)) && cell_index(a, w, (x, y)) == i
}

/// Whether `i` is the index of a cell that comes before `(rx, ry)`.
spec fn cleared_before(a: DrawArea, w: int, i: int, ry: int, rx: int) -> bool {
    exists|x: int, y: int| #[trigger] cleared_step(a, w, i, ry, rx, x, y)
}

/// Column of cell index `i` relative to the area (may be out of range).
pub open spec fn col_of(a: DrawArea, w: int, i: int) -> int {
    i % w - a.offset.0
}

/// Row of cell index `i` relative to the area (may be out of range).
pub open spec fn row_of(a: DrawArea, w: int, i: int) -> int {
    i / w - a.offset.1
}

/// Whether cell `i` lies in the area's columns and in its rows `0..y`.
pub open spec fn in_area_rows(a: DrawArea, w: int, i: int, y: int) -> bool {
    0 <= col_of(a, w, i) < a.size.0 && 0 <= row_of(a, w, i) < y
}

/// Whether cell `i` lies in row `y` of the area, in its columns `0..x`.
pub open spec fn in_row_prefix(a: DrawArea, w: int, i: int, y: int, x: int) -> bool {
    0 <= col_of(a, w, i) < x && row_of(a, w, i) == y
}

/// The back buffer after clearing area `a`: every cell of the area whose
/// index lies in the buffer is blank, every other cell is kept.
pub open spec fn spec_clear(buf: Seq<ScreenChar>, a: DrawArea, w: int) -> Seq<ScreenChar> {
    Seq::new(buf.len(), |i: int| if is_area_cell(a, w, i) { blank() } else { buf[i] })
}

proof fn lemma_cell_decode(a: DrawArea, w: int, x: int, y: int)
    requires
        area_fits(a, w),
        0 <= x < a.size.0,
        0 <= y,
    ensures
        col_of(a, w, cell_index(a, w, (x, y))) == x,
        row_of(a, w, cell_index(a, w, (x, y))) == y,
{
    let i = cell_index(a, w, (x, y));
    let q = a.offset.1 + y;
    let r = a.offset.0 + x;
    assert(0 <= r < w);
    assert(i == q * w + r);
    assert(i / w == q && i % w == r) by (nonlinear_arith)
        requires i == q * w + r, 0 <= r < w, w > 0, q >= 0;
}

proof fn lemma_cell_unique(a: DrawArea, w: int, j: int)
    requires
        w > 0,
        j >= 0,
    ensures
        j == cell_index(a, w, (col_of(a, w, j), row_of(a, w, j))),
{
    assert(j == (j / w) * w + j % w) by (nonlinear_arith)
        requires w > 0;
}

proof fn lemma_row_split(a: DrawArea, w: int, j: int, y: int)
    requires
        y >= 0,
    ensures
        in_area_rows(a, w, j, y + 1) == (in_area_rows(a, w, j, y) || in_row_prefix(a, w, j, y, a.size.0 as int)),
{
}

/// The cursor moved to the start of the next line.
pub open spec fn spec_newline(a: DrawArea) -> DrawArea {
    DrawArea { pos: (0, (a.pos.1 + 1) as usize), ..a }
}

/// The back buffer after scrolling area `a` up by one line: each row takes
/// the row below it (when that cell exists in the buffer) and the last row
/// is blanked.
pub open spec fn spec_scroll(buf: Seq<ScreenChar>, a: DrawArea, w: int) -> Seq<ScreenChar> {
    Seq::new(
        buf.len(),
        |i: int|
            if in_area_rows(a, w, i, a.size.1 - 1) {
                if i + w < buf.len() { buf[i + w] } else { buf[i] }
            } else if in_row_prefix(a, w, i, a.size.1 - 1, a.size.0 as int) {
                blank()
            } else {
                buf[i]
            },
    )
}

/// The buffer after `k` scrolls.
pub open spec fn spec_scroll_times(buf: Seq<ScreenChar>, a: DrawArea, w: int, k: nat) -> Seq<ScreenChar>
    decreases k,
{
    if k == 0 {
        buf
    } else {
        spec_scroll(spec_scroll_times(buf, a, w, (k - 1) as nat), a, w)
    }
}

/// Writing one character: a newline moves the cursor; otherwise the cursor
/// wraps at the right edge, a scrolling area scrolls until the cursor is back
/// inside, and the character is stored under the cursor (when the cursor is
/// inside the area and the cell exists) and the cursor advances.
pub open spec fn spec_write_char(a: DrawArea, buf: Seq<ScreenChar>, w: int, c: char, fg: Color, bg: Color) -> (DrawArea, Seq<ScreenChar>) {
    if c == '\n' {
        (spec_newline(a), buf)
    } else {
        let a1 = if a.pos.0 >= a.size.0 { spec_newline(a) } else { a };
        let must_scroll = a1.scroll && a1.pos.1 >= a1.size.1;
        let b2 = if must_scroll { spec_scroll_times(buf, a1, w, (a1.pos.1 - a1.size.1 + 1) as nat) } else { buf };
        let a2 = if must_scroll { DrawArea { pos: (a1.pos.0, (a1.size.1 - 1) as usize), ..a1 } } else { a1 };
        if a2.pos.1 >= a2.size.1 {
            (a2, b2)
        } else {
            let i = cell_index(a2, w, (a2.pos.0 as int, a2.pos.1 as int));
            let b3 = if i < b2.len() { b2.update(i, ScreenChar { c, fg, bg }) } else { b2 };
            (DrawArea { pos: ((a2.pos.0 + 1) as usize, a2.pos.1), ..a2 }, b3)
        }
    }
}

/// Writing a whole message, character by character.
pub open spec fn spec_write(a: DrawArea, buf: Seq<ScreenChar>, w: int, msg: Seq<char>, fg: Color, bg: Color) -> (DrawArea, Seq<ScreenChar>)
    decreases msg.len(),
{
    if msg.len() == 0 {
        (a, buf)
    } else {
        let prev = spec_write(a, buf, w, msg.drop_last(), fg, bg);
        spec_write_char(prev.0, prev.1, w, msg.last(), fg, bg)
    }
}

impl DrawArea {
    /// Scrolls the area's text up one line in the back buffer.
    fn scroll_up(&self, back: &mut Vec<ScreenChar>, cols: usize)
        requires
            area_fits(*self, cols as int),
            self.size.1 > 0,
        ensures
            final(back)@ == spec_scroll(old(back)@, *self, cols as int),
    {
        let ghost b0 = back@;
        let w = cols;
        let last_row = self.size.1 - 1;
        let mut y: usize = 0;
        while y < last_row
            invariant
                area_fits(*self, w as int),
                last_row == self.size.1 - 1,
                y <= last_row,
                back@.len() == b0.len(),
                forall|i: int| 0 <= i < b0.len() ==> #[trigger] back@[i] == (if in_area_rows(*self, w as int, i, y as int) {
                    if i + w < b0.len() { b0[i + w] } else { b0[i] }
                } else {
                    b0[i]
                }),
            decreases last_row - y,
        {
            let mut x: usize = 0;
            while x < self.size.0
                invariant
                    area_fits(*self, w as int),
                    last_row == self.size.1 - 1,
                    y < last_row,
                    x <= self.size.0,
                    back@.len() == b0.len(),
                    forall|i: int| 0 <= i < b0.len() ==> #[trigger] back@[i] == (if in_area_rows(*self, w as int, i, y as int)
                        || in_row_prefix(*self, w as int, i, y as int, x as int) {
                        if i + w < b0.len() { b0[i + w] } else { b0[i] }
                    } else {
                        b0[i]
                    }),
                decreases self.size.0 - x,
            {
                let cur = self.idx(x, y, w);
                let next = self.idx(x, y + 1, w);
                proof {
                    lemma_cell_decode(*self, w as int, x as int, y as int);
                    lemma_cell_decode(*self, w as int, x as int, y + 1);
                    assert((self.offset.1 + y + 1) * w == (self.offset.1 + y) * w + w) by (nonlinear_arith);
                    assert(next == cur + w);
                }
                if cur < back.len() && next < back.len() {
                    let v = back[next];
                    proof {
                        // The row below has not been written yet.
                        assert(!in_area_rows(*self, w as int, next as int, y as int));
                        assert(!in_row_prefix(*self, w as int, next as int, y as int, x as int));
                        assert(v == b0[next as int]);
                    }
                    back.set(cur, v);
                }
                proof {
                    assert forall|j: int| 0 <= j < b0.len() implies #[trigger] back@[j] == (if in_area_rows(*self, w as int, j, y as int)
                        || in_row_prefix(*self, w as int, j, y as int, x + 1) {
                        if j + w < b0.len() { b0[j + w] } else { b0[j] }
                    } else {
                        b0[j]
                    }) by {
                        lemma_cell_unique(*self, w as int, j);
                    }
                }
                x = x + 1;
            }
            proof {
                assert forall|j: int| 0 <= j < b0.len() implies #[trigger] back@[j] == (if in_area_rows(*self, w as int, j, y + 1) {
                    if j + w < b0.len() { b0[j + w] } else { b0[j] }
                } else {
                    b0[j]
                }) by {
                    lemma_row_split(*self, w as int, j, y as int);
                }
            }
            y = y + 1;
        }
        let mut x: usize = 0;
        while x < self.size.0
            invariant
                area_fits(*self, w as int),
                last_row == self.size.1 - 1,
                x <= self.size.0,
                back@.len() == b0.len(),
                forall|i: int| 0 <= i < b0.len() ==> #[trigger] back@[i] == (if in_area_rows(*self, w as int, i, last_row as int) {
                    if i + w < b0.len() { b0[i + w] } else { b0[i] }
                } else if in_row_prefix(*self, w as int, i, last_row as int, x as int) {
                    blank()
                } else {
                    b0[i]
                }),
            decreases self.size.0 - x,
        {
            let last = self.idx(x, last_row, w);
            if last < back.len() {
                back.set(last, ScreenChar::blank());
            }
            proof {
                lemma_cell_decode(*self, w as int, x as int, last_row as int);
                assert forall|j: int| 0 <= j < b0.len() implies #[trigger] back@[j] == (if in_area_rows(*self, w as int, j, last_row as int) {
                    if j + w < b0.len() { b0[j + w] } else { b0[j] }
                } else if in_row_prefix(*self, w as int, j, last_row as int, x + 1) {
                    blank()
                } else {
                    b0[j]
                }) by {
                    lemma_cell_unique(*self, w as int, j);
                }
            }
            x = x + 1;
        }
        proof {
            assert(back@ =~= spec_scroll(b0, *self, w as int));
        }
    }

    /// Writes `msg` in colors `fg` on `bg` at the cursor, wrapping at the
    /// right edge and, in a scrolling area, scrolling at the bottom.
    pub fn write_with_color(&mut self, back: &mut Vec<ScreenChar>, cols: usize, msg: &Vec<char>, fg: Color, bg: Color)
        requires
            area_fits(*old(self), cols as int),
            old(self).scroll ==> old(self).size.1 > 0,
            old(self).pos.1 + 2 * msg@.len() + 1 <= usize::MAX,
        ensures
            (*final(self), final(back)@) == spec_write(*old(self), old(back)@, cols as int, msg@, fg, bg),
    {
        let ghost a0 = *self;
        let ghost b0 = back@;
        let mut k: usize = 0;
        while k < msg.len()
            invariant
                area_fits(*self, cols as int),
                self.scroll ==> self.size.1 > 0,
                self.offset == a0.offset && self.size == a0.size && self.scroll == a0.scroll,
                k <= msg@.len(),
                self.pos.1 + 2 * (msg@.len() - k) + 1 <= usize::MAX,
                (*self, back@) == spec_write(a0, b0, cols as int, msg@.take(k as int), fg, bg),
            decreases msg@.len() - k,
        {
            let c = msg[k];
            let ghost sa = *self;
            let ghost sb = back@;
            proof {
                assert(msg@.take(k + 1).drop_last() =~= msg@.take(k as int));
                assert(msg@.take(k + 1).last() == c);
            }
            if c == '\n' {
                self.newline();
            } else {
                if self.pos.0 >= self.size.0 {
                    self.newline();
                }
                let ghost a1 = *self;
                let ghost mut n: nat = 0;
                while self.scroll && self.pos.1 >= self.size.1
                    invariant
                        area_fits(*self, cols as int),
                        self.scroll ==> self.size.1 > 0,
                        self.offset == a1.offset && self.size == a1.size && self.scroll == a1.scroll,
                        self.pos.0 == a1.pos.0,
                        a1.scroll && a1.pos.1 >= a1.size.1 ==> self.pos.1 + n == a1.pos.1 && self.pos.1 >= self.size.1 - 1,
                        !(a1.scroll && a1.pos.1 >= a1.size.1) ==> self.pos.1 == a1.pos.1 && n == 0,
                        back@ == spec_scroll_times(sb, a1, cols as int, n),
                    decreases self.pos.1,
                {
                    self.pos.1 = self.pos.1 - 1;
                    self.scroll_up(back, cols);
                    proof {
                        n = n + 1;
                    }
                }
                if self.pos.1 < self.size.1 {
                    let i = self.idx(self.pos.0, self.pos.1, cols);
                    if i < back.len() {
                        back.set(i, ScreenChar { c, fg, bg });
                    }
                    self.pos.0 = self.pos.0 + 1;
                }
            }
            proof {
                assert((*self, back@) == spec_write_char(sa, sb, cols as int, c, fg, bg));
            }
            k = k + 1;
        }
        proof {
            assert(msg@.take(msg@.len() as int) =~= msg@);
        }
    }
}

/// What the loader learned about the machine before leaving boot services.
#[derive(Clone, Copy, Debug)]
pub struct BootInfo {
    pub framebuffer_base: u64,
    pub framebuffer_size: usize,
    pub fb_width: u32,
    pub fb_height: u32,
    pub fb_stride: u32,
    pub rsdp_addr: Option<u64>,
    pub tsc_ticks_per_micro: i64,
    pub uefi_mac: Option<[u8; 6]>,
}

/// One cell to redraw.
#[derive(Clone, Copy, Debug)]
pub struct CellDraw {
    pub col: usize,
    pub row: usize,
    pub cell: ScreenChar,
}

/// The character screen: its grid size, whether it is the VGA text buffer,
/// and the cells on screen (front) and the cells wanted (back).
pub struct Screen {
    pub cols: usize,
    pub rows: usize,
    pub is_vga_text: bool,
    pub front_buffer: Vec<ScreenChar>,
    pub back_buffer: Vec<ScreenChar>,
}

/// The cells among the first `n` whose front and back differ, in order.
pub open spec fn spec_diff(front: Seq<ScreenChar>, back: Seq<ScreenChar>, cols: int, n: int) -> Seq<CellDraw>
    decreases n,
{
    if n <= 0 {
        Seq::empty()
    } else {
        let prev = spec_diff(front, back, cols, n - 1);
        let i = n - 1;
        if front[i] != back[i] {
            prev.push(CellDraw { col: (i % cols) as usize, row: (i / cols) as usize, cell: back[i] })
        } else {
            prev
        }
    }
}

impl Screen {
    /// Well-formedness: both buffers hold one cell per grid position.
    pub open spec fn wf(&self) -> bool {
        &&& self.cols > 0
        &&& self.front_buffer@.len() == self.cols * self.rows
        &&& self.back_buffer@.len() == self.cols * self.rows
    }

    /// A blank screen for the boot framebuffer: 80x25 on the VGA text buffer,
    /// else one cell per 8x16 pixels.
    pub fn new(boot_info: &BootInfo) -> (r: Screen)
        requires
            boot_info.framebuffer_base != 0xB8000 ==> boot_info.fb_width >= 8 && (boot_info.fb_width as int / 8) * (
                boot_info.fb_height as int / 16) <= usize::MAX,
        ensures
            r.is_vga_text == (boot_info.framebuffer_base == 0xB8000),
            r.is_vga_text ==> r.cols == 80 && r.rows == 25,
            !r.is_vga_text ==> r.cols == boot_info.fb_width / 8 && r.rows == boot_info.fb_height / 16,
            r.wf(),
            forall|i: int| 0 <= i < r.cols * r.rows ==> #[trigger] r.front_buffer@[i] == blank() && r.back_buffer@[i] == blank(),
    {
        let is_vga_text = boot_info.framebuffer_base == 0xB8000;
        let (cols, rows): (usize, usize) = if is_vga_text {
            (80, 25)
        } else {
            ((boot_info.fb_width as usize) / 8, (boot_info.fb_height as usize) / 16)
        };
        let total = cols * rows;
        let mut front: Vec<ScreenChar> = Vec::new();
        let mut back: Vec<ScreenChar> = Vec::new();
        let mut i: usize = 0;
        while i < total
            invariant
                i <= total,
                front@.len() == i && back@.len() == i,
                forall|j: int| 0 <= j < i ==> #[trigger] front@[j] == blank() && back@[j] == blank(),
            decreases total - i,
        {
            front.push(ScreenChar::blank());
            back.push(ScreenChar::blank());
            i = i + 1;
        }
        Screen { cols, rows, is_vga_text, front_buffer: front, back_buffer: back }
    }

    /// Brings the front buffer up to date and returns the cells that changed,
    /// in row-major order, for the caller to draw.
    pub fn flush(&mut self) -> (r: Vec<CellDraw>)
        requires
            old(self).wf(),
        ensures
            final(self).wf(),
            final(self).cols == old(self).cols && final(self).rows == old(self).rows,
            final(self).is_vga_text == old(self).is_vga_text,
            final(self).back_buffer == old(self).back_buffer,
            final(self).front_buffer@ == old(self).back_buffer@,
            r@ == spec_diff(old(self).front_buffer@, old(self).back_buffer@, old(self).cols as int, old(self).cols * old(self).rows),
    {
        let total = self.front_buffer.len();
        let ghost f0 = self.front_buffer@;
        let mut out: Vec<CellDraw> = Vec::new();
        let mut i: usize = 0;
        while i < total
            invariant
                self.wf(),
                self.cols == old(self).cols && self.rows == old(self).rows,
                self.is_vga_text == old(self).is_vga_text,
                self.back_buffer == old(self).back_buffer,
                f0 == old(self).front_buffer@,
                total == self.cols * self.rows,
                i <= total,
                forall|j: int| 0 <= j < i ==> #[trigger] self.front_buffer@[j] == self.back_buffer@[j],
                forall|j: int| i <= j < total ==> #[trigger] self.front_buffer@[j] == f0[j],
                out@ == spec_diff(f0, self.back_buffer@, self.cols as int, i as int),
            decreases total - i,
        {
            let b = self.back_buffer[i];
            if self.front_buffer[i] != b {
                out.push(CellDraw { col: i % self.cols, row: i / self.cols, cell: b });
                self.front_buffer.set(i, b);
            }
            i = i + 1;
        }
        proof {
            assert(self.front_buffer@ =~= self.back_buffer@);
        }
        out
    }

    /// Sets every cell of both buffers to a blank on `bg` (the caller paints
    /// the framebuffer or VGA buffer itself).
    pub fn clear_all(&mut self, bg: Color)
        requires
            old(self).wf(),
        ensures
            final(self).wf(),
            final(self).cols == old(self).cols && final(self).rows == old(self).rows,
            final(self).is_vga_text == old(self).is_vga_text,
            forall|i: int| 0 <= i < final(self).cols * final(self).rows ==> #[trigger] final(self).front_buffer@[i]
                == (ScreenChar { c: ' ', fg: Color::White, bg }) && final(self).back_buffer@[i] == (ScreenChar {
                c: ' ',
                fg: Color::White,
                bg,
            }),
    {
        let total = self.front_buffer.len();
        let cell = ScreenChar { c: ' ', fg: Color::White, bg };
        let mut i: usize = 0;
        while i < total
            invariant
                self.wf(),
                self.cols == old(self).cols && self.rows == old(self).rows,
                self.is_vga_text == old(self).is_vga_text,
                total == self.cols * self.rows,
                i <= total,
                forall|j: int| 0 <= j < i ==> #[trigger] self.front_buffer@[j] == cell && self.back_buffer@[j] == cell,
            decreases total - i,
        {
            self.front_buffer.set(i, cell);
            self.back_buffer.set(i, cell);
            i = i + 1;
        }
    }
}

/// The two digits shown in the reboot countdown: the tens digit (a space
/// when zero) and the units digit, as ASCII.
pub fn fault_countdown_digits(seconds: usize) -> (r: (u8, u8))
    ensures
        r.0 == (if (seconds / 10) % 10 > 0 { 48 + (seconds / 10) % 10 } else { 32 }),
        r.1 == 48 + seconds % 10,
{
    let tens = ((seconds / 10) % 10) as u8;
    let ones = (seconds % 10) as u8;
    let t: u8 = if tens > 0 { 48u8 + tens } else { 32u8 };
    (t, 48u8 + ones)
}

/// A line of the fault screen: its text, the column and row it starts at,
/// and its foreground and background pixel colours.
pub struct FaultLine {
    pub text: Vec<u8>,
    pub col: usize,
    pub row: usize,
    pub fg: u32,
    pub bg: u32,
}

/// Row of the reboot countdown on the fault screen.
pub const COUNTDOWN_ROW: usize = 12;
/// Foreground of the fault screen's text.
pub const FAULT_FG: u32 = 0xFFFF_FFFF;
/// Background of the fault screen.
pub const FAULT_BG: u32 = 0x00AA_0000;

/// The countdown line shown while a fault screen waits to reboot: the
/// message with the seconds filled in, centred on a screen `cols`
/// characters wide, on row 12, white on red. Nothing else is drawn.
pub fn update_fault_countdown(seconds: usize, cols: usize) -> (r: FaultLine)
    ensures
        r.text@.len() == 64,
        r.text@[13] == fault_countdown_digits_spec(seconds).0,
        r.text@[14] == fault_countdown_digits_spec(seconds).1,
        forall|i: int| 0 <= i < 64 && i != 13 && i != 14 ==> #[trigger] r.text@[i] == countdown_template()[i],
        r.col == (if cols >= 64 { cols - 64 } else { 0 }) / 2,
        r.row == COUNTDOWN_ROW,
        r.fg == FAULT_FG,
        r.bg == FAULT_BG,
{
    let template = "Rebooting in XX seconds... (press any key to reboot immediately)";
    proof {
        reveal_strlit("Rebooting in XX seconds... (press any key to reboot immediately)");
        assert(template@.len() == 64);
        assert(vstd::string::is_ascii(template));
        vstd::string::is_ascii_spec_bytes(template);
    }
    let bytes = template.as_bytes();
    let (t, o) = fault_countdown_digits(seconds);
    let mut out: Vec<u8> = Vec::new();
    let mut i: usize = 0;
    while i < bytes.len()
        invariant
            bytes@ == countdown_template(),
            bytes@.len() == 64,
            i <= 64,
            out@.len() == i,
            forall|k: int| 0 <= k < i ==> #[trigger] out@[k] == (if k == 13 { t } else if k == 14 { o } else { bytes@[k] }),
        decreases 64 - i,
    {
        let b = if i == 13 { t } else if i == 14 { o } else { bytes[i] };
        out.push(b);
        i = i + 1;
    }
    let x = (if cols >= 64 { cols - 64 } else { 0 }) / 2;
    FaultLine { text: out, col: x, row: COUNTDOWN_ROW, fg: FAULT_FG, bg: FAULT_BG }
}

/// The countdown message before the seconds are filled in, as ASCII.
pub open spec fn countdown_template() -> Seq<u8> {
    "Rebooting in XX seconds... (press any key to reboot immediately)".spec_bytes()
}

/// The two countdown digits, as `fault_countdown_digits` computes them.
pub open spec fn fault_countdown_digits_spec(seconds: usize) -> (u8, u8) {
    (
        (if (seconds / 10) % 10 > 0 { 48 + (seconds / 10) % 10 } else { 32 }) as u8,
        (48 + seconds % 10) as u8,
    )
}

/// Whether cell `i` of a screen `w` columns wide belongs to area `a`.
pub open spec fn in_area(a: DrawArea, w: int, i: int) -> bool {
    0 <= col_of(a, w, i) < a.size.0 && 0 <= row_of(a, w, i) < a.size.1
}

/// The same area, wherever its cursor is.
pub open spec fn same_area(a: DrawArea, b: DrawArea) -> bool {
    a.offset == b.offset && a.size == b.size && a.scroll == b.scroll
}

proof fn lemma_scroll_inside(buf: Seq<ScreenChar>, a: DrawArea, w: int, k: nat)
    requires
        area_fits(a, w),
        a.size.1 > 0,
    ensures
        spec_scroll_times(buf, a, w, k).len() == buf.len(),
        forall|i: int| 0 <= i < buf.len() && !in_area(a, w, i) ==> #[trigger] spec_scroll_times(buf, a, w, k)[i] == buf[i],
    decreases k,
{
    if k > 0 {
        lemma_scroll_inside(buf, a, w, (k - 1) as nat);
        let prev = spec_scroll_times(buf, a, w, (k - 1) as nat);
        assert forall|i: int| 0 <= i < buf.len() && !in_area(a, w, i) implies #[trigger] spec_scroll_times(
            buf,
            a,
            w,
            k,
        )[i] == buf[i] by {
            assert(!in_area_rows(a, w, i, a.size.1 - 1));
            assert(!in_row_prefix(a, w, i, a.size.1 - 1, a.size.0 as int));
            assert(spec_scroll(prev, a, w)[i] == prev[i]);
        }
    }
}

proof fn lemma_write_char_inside(a: DrawArea, buf: Seq<ScreenChar>, w: int, c: char, fg: Color, bg: Color)
    requires
        area_fits(a, w),
        a.size.0 > 0,
        a.scroll ==> a.size.1 > 0,
    ensures
        same_area(spec_write_char(a, buf, w, c, fg, bg).0, a),
        spec_write_char(a, buf, w, c, fg, bg).1.len() == buf.len(),
        forall|i: int| 0 <= i < buf.len() && !in_area(a, w, i) ==> #[trigger] spec_write_char(a, buf, w, c, fg, bg).1[i]
            == buf[i],
{
    if c != '\n' {
        let a1 = if a.pos.0 >= a.size.0 { spec_newline(a) } else { a };
        let must_scroll = a1.scroll && a1.pos.1 >= a1.size.1;
        let k = (a1.pos.1 - a1.size.1 + 1) as nat;
        let b2 = if must_scroll { spec_scroll_times(buf, a1, w, k) } else { buf };
        let a2 = if must_scroll { DrawArea { pos: (a1.pos.0, (a1.size.1 - 1) as usize), ..a1 } } else { a1 };
        if must_scroll {
            lemma_scroll_inside(buf, a1, w, k);
        }
        assert forall|i: int| 0 <= i < buf.len() && !in_area(a, w, i) implies #[trigger] b2[i] == buf[i] by {
            assert(in_area(a1, w, i) == in_area(a, w, i));
        }
        if a2.pos.1 < a2.size.1 {
            let x = a2.pos.0 as int;
            let y = a2.pos.1 as int;
            assert(0 <= x < a.size.0);
            lemma_cell_decode(a2, w, x, y);
            assert(in_area(a, w, cell_index(a2, w, (x, y))));
        }
    }
}

/// Law: drawing text in an area never changes a cell outside it. This
/// holds for every area at least one column wide whose scrolling, if any,
/// has a row to scroll (text written into an area of width zero lands in
/// the column just right of it).
pub proof fn lemma_write_stays_inside(a: DrawArea, buf: Seq<ScreenChar>, w: int, msg: Seq<char>, fg: Color, bg: Color)
    requires
        area_fits(a, w),
        a.size.0 > 0,
        a.scroll ==> a.size.1 > 0,
    ensures
        same_area(spec_write(a, buf, w, msg, fg, bg).0, a),
        spec_write(a, buf, w, msg, fg, bg).1.len() == buf.len(),
        forall|i: int| 0 <= i < buf.len() && !in_area(a, w, i) ==> #[trigger] spec_write(a, buf, w, msg, fg, bg).1[i]
            == buf[i],
    decreases msg.len(),
{
    if msg.len() > 0 {
        let prev = spec_write(a, buf, w, msg.drop_last(), fg, bg);
        lemma_write_stays_inside(a, buf, w, msg.drop_last(), fg, bg);
        assert(area_fits(prev.0, w));
        lemma_write_char_inside(prev.0, prev.1, w, msg.last(), fg, bg);
        assert forall|i: int| 0 <= i < buf.len() && !in_area(a, w, i) implies #[trigger] spec_write(
            a,
            buf,
            w,
            msg,
            fg,
            bg,
        ).1[i] == buf[i] by {
            assert(in_area(prev.0, w, i) == in_area(a, w, i));
            assert(prev.1[i] == buf[i]);
        }
    }
}

/// The banner of the fault screen, as ASCII.
pub open spec fn fault_banner() -> Seq<u8> {
    "======================= SYSTEM FAULT DETECTED =======================".spec_bytes()
}

/// Where the fault screen's banner and reason start on a screen `cols`
/// characters wide: each centred by its length in bytes.
pub fn fault_screen_columns(cols: usize, reason_len: usize) -> (r: (usize, usize))
    ensures
        r.0 == (if cols >= 69 { cols - 69 } else { 0 }) / 2,
        r.1 == (if cols >= reason_len { cols - reason_len } else { 0 }) / 2,
{
    let x = (if cols >= 69 { cols - 69 } else { 0 }) / 2;
    let rx = (if cols >= reason_len { cols - reason_len } else { 0 }) / 2;
    (x, rx)
}

/// A text-mode cell showing `ch` white on red.
pub open spec fn fault_cell(ch: u8) -> u16 {
    (ch as int + 0x4F00) as u16
}

/// The byte a reason character is shown as: itself when ASCII, else `?`.
pub open spec fn shown_as(c: char) -> u8 {
    if (c as u32) < 128 {
        c as u8
    } else {
        63u8
    }
}

/// The 80x25 text-mode fault screen: white on red, the banner centred on
/// row 4, and the first 80 characters of the reason on row 8, centred by
/// the reason's length in bytes.
pub open spec fn spec_vga_fault_screen(reason: Seq<char>, byte_len: int) -> Seq<u16> {
    let rx = (if byte_len < 80 { 80 - byte_len } else { 0 }) / 2;
    let shown = if reason.len() < 80 { reason.len() as int } else { 80 };
    Seq::new(
        2000,
        |p: int|
            if 325 <= p < 394 {
                fault_cell(fault_banner()[p - 325])
            } else if 640 + rx <= p < 640 + rx + shown {
                fault_cell(shown_as(reason[p - 640 - rx]))
            } else {
                fault_cell(32)
            },
    )
}

/// The fault screen drawn straight into VGA text memory when no
/// framebuffer console is available.
pub fn vga_fault_screen(reason: &str) -> (r: Vec<u16>)
    ensures
        r@ == spec_vga_fault_screen(reason@, reason.len() as int),
{
    let banner = "======================= SYSTEM FAULT DETECTED =======================";
    proof {
        reveal_strlit("======================= SYSTEM FAULT DETECTED =======================");
        assert(banner@.len() == 69);
        assert(vstd::string::is_ascii(banner));
        vstd::string::is_ascii_spec_bytes(banner);
    }
    let bb = banner.as_bytes();
    let byte_len = reason.len();
    let rx: usize = (if byte_len < 80 { 80 - byte_len } else { 0 }) / 2;
    let n = reason.unicode_len();
    let shown: usize = if n < 80 { n } else { 80 };
    let mut out: Vec<u16> = Vec::new();
    let mut p: usize = 0;
    while p < 2000
        invariant
            bb@ == fault_banner(),
            bb@.len() == 69,
            byte_len == reason.len(),
            rx == (if byte_len < 80 { 80 - byte_len } else { 0 }) / 2,
            n == reason@.len(),
            shown == (if reason@.len() < 80 { reason@.len() as int } else { 80 }),
            p <= 2000,
            out@.len() == p,
            forall|k: int| 0 <= k < p ==> #[trigger] out@[k] == spec_vga_fault_screen(reason@, byte_len as int)[k],
        decreases 2000 - p,
    {
        let ch: u8 = if 325 <= p && p < 394 {
            bb[p - 325]
        } else if 640 + rx <= p && p < 640 + rx + shown {
            let c = reason.get_char(p - 640 - rx);
            if (c as u32) < 128 {
                (c as u32) as u8
            } else {
                63u8
            }
        } else {
            32u8
        };
        out.push(ch as u16 + 0x4F00u16);
        p = p + 1;
    }
    proof {
        assert(out@ =~= spec_vga_fault_screen(reason@, byte_len as int));
    }
    out
}

} // verus!
