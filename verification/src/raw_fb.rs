//! The fallback framebuffer console used when a fault stops the UI: a
//! fixed-capacity text buffer, glyph selection, and the layout of text on
//! the framebuffer.

use vstd::prelude::*;
use vstd::utf8::valid_utf8;
use vstd::string::{StringSliceAdditionalSpecFns, StrSliceExecFns};

verus! {

/// Width of a glyph in pixels.
pub const FONT_WIDTH: usize = 8;
/// Height of a glyph in pixels.
pub const FONT_HEIGHT: usize = 16;

/// Text written into a buffer of fixed capacity `N`; what does not fit is
/// dropped.
pub struct StackWriter<const N: usize> {
    buf: Vec<u8>,
    len: usize,
}

/// `core::str::from_utf8`, as an `Option`.
/// Per the standard library documentation, it succeeds exactly when the
/// bytes are valid UTF-8, and the string it returns has exactly these bytes.
#[verifier::external_body]
fn str_from_utf8(v: &[u8]) -> (r: Option<&str>)
    ensures
        r is Some <==> valid_utf8(v@),
        r matches Some(s) ==> s.spec_bytes() == v@,
{
    core::str::from_utf8(v).ok()
}

impl<const N: usize> StackWriter<N> {
    /// The bytes written so far.
    pub closed spec fn contents(&self) -> Seq<u8> {
        self.buf@.take(self.len as int)
    }

    /// Well-formedness: the buffer has capacity `N` and holds at most `N` bytes.
    pub closed spec fn wf(&self) -> bool {
        self.buf@.len() == N && self.len <= N
    }

    /// An empty writer.
    pub fn new() -> (r: Self)
        ensures
            r.wf(),
            r.contents() == Seq::<u8>::empty(),
    {
        let mut buf: Vec<u8> = Vec::new();
        let mut i: usize = 0;
        while i < N
            invariant
                i <= N,
                buf@.len() == i,
            decreases N - i,
        {
            buf.push(0);
            i = i + 1;
        }
        StackWriter { buf, len: 0 }
    }

    /// The text written so far, or the empty string when the bytes kept are
    /// not valid UTF-8 (a multi-byte character cut at the capacity).
    pub fn as_str(&self) -> (r: &str)
        requires
            self.wf(),
        ensures
            valid_utf8(self.contents()) ==> r.spec_bytes() == self.contents(),
            !valid_utf8(self.contents()) ==> r@ == Seq::<char>::empty(),
    {
        let bytes = vstd::slice::slice_subrange(self.buf.as_slice(), 0, self.len);
        proof {
            assert(bytes@ =~= self.contents());
        }
        match str_from_utf8(bytes) {
            Some(s) => s,
            None => {
                let e = "";
                proof {
                    reveal_strlit("");
                }
                e
            },
        }
    }

    /// Forgets the text written.
    pub fn clear(&mut self)
        requires
            old(self).wf(),
        ensures
            final(self).wf(),
            final(self).contents() == Seq::<u8>::empty(),
    {
        self.len = 0;
    }

    /// Appends the bytes of `s` that still fit.
    pub fn write_str(&mut self, s: &str)
        requires
            old(self).wf(),
        ensures
            final(self).wf(),
            final(self).contents() == old(self).contents() + s.spec_bytes().take(
                min_usize((N - old(self).contents().len()) as int, s.spec_bytes().len() as int),
            ),
    {
        let bytes = s.as_bytes();
        let avail = N - self.len;
        let copy_len = if bytes.len() < avail { bytes.len() } else { avail };
        let ghost c0 = self.contents();
        let ghost b0 = self.buf@;
        let mut i: usize = 0;
        while i < copy_len
            invariant
                self.buf@.len() == N,
                b0.len() == N,
                c0 == b0.take(self.len as int),
                self.len == old(self).len,
                self.len <= N,
                copy_len <= bytes@.len(),
                self.len + copy_len <= N,
                i <= copy_len,
                forall|j: int| 0 <= j < self.len ==> #[trigger] self.buf@[j] == b0[j],
                forall|j: int| self.len <= j < self.len + i ==> #[trigger] self.buf@[j] == bytes@[j - self.len],
            decreases copy_len - i,
        {
            self.buf.set(self.len + i, bytes[i]);
            i = i + 1;
        }
        let ghost old_len = self.len;
        self.len = self.len + copy_len;
        proof {
            assert forall|j: int| 0 <= j < self.len implies #[trigger] self.contents()[j] == (c0 + bytes@.take(copy_len as int))[j] by {
                if j < old_len {
                    assert(self.buf@[j] == b0[j]);
                } else {
                    assert(self.buf@[j] == bytes@[j - old_len]);
                }
            }
            assert(self.contents() =~= c0 + bytes@.take(copy_len as int));
        }
    }
}

/// `min(a, b)`.
pub open spec fn min_usize(a: int, b: int) -> int {
    if a <= b { a } else { b }
}

/// Which glyph is drawn for a character.
#[derive(Clone, Copy, Debug, PartialEq, Eq)]
pub enum Glyph {
    /// Entry of the 256-entry font table.
    Table(u8),
    HLine,
    VLine,
    CornerTopLeft,
    CornerTopRight,
    CornerBottomLeft,
    CornerBottomRight,
    TeeTop,
    TeeBottom,
    ArrowRight,
}

/// The glyph for `c`: code points below 256 index the font table; the
/// box-drawing characters and the right-pointing arrow have their own
/// glyphs; everything else is drawn as `?`.
pub open spec fn spec_get_glyph(c: char) -> Glyph {
    if (c as u32) < 256 {
        Glyph::Table(c as u8)
    } else if c == '\u{2500}' {
        Glyph::HLine
    } else if c == '\u{2502}' {
        Glyph::VLine
    } else if c == '\u{250C}' {
        Glyph::CornerTopLeft
    } else if c == '\u{2510}' {
        Glyph::CornerTopRight
    } else if c == '\u{2514}' {
        Glyph::CornerBottomLeft
    } else if c == '\u{2518}' {
        Glyph::CornerBottomRight
    } else if c == '\u{252C}' {
        Glyph::TeeTop
    } else if c == '\u{2534}' {
        Glyph::TeeBottom
    } else if c == '\u{25ba}' {
        Glyph::ArrowRight
    } else {
        Glyph::Table(63)
    }
}

/// The glyph that draws `c`.
pub fn get_glyph(c: char) -> (r: Glyph)
    ensures
        r == spec_get_glyph(c),
{
    if (c as u32) < 256 {
        Glyph::Table(c as u8)
    } else {
        match c {
            '\u{2500}' => Glyph::HLine,
            '\u{2502}' => Glyph::VLine,
            '\u{250C}' => Glyph::CornerTopLeft,
            '\u{2510}' => Glyph::CornerTopRight,
            '\u{2514}' => Glyph::CornerBottomLeft,
            '\u{2518}' => Glyph::CornerBottomRight,
            '\u{252C}' => Glyph::TeeTop,
            '\u{2534}' => Glyph::TeeBottom,
            '\u{25ba}' => Glyph::ArrowRight,
            _ => Glyph::Table(63),
        }
    }
}

/// The color of pixel column `x` (0 = leftmost) of a glyph row.
pub fn glyph_pixel(row_byte: u8, x: usize, fg: u32, bg: u32) -> (r: u32)
    requires
        x < 8,
    ensures
        r == (if (row_byte & (0x80u8 >> (x as u8))) != 0 { fg } else { bg }),
{
    if (row_byte & (0x80u8 >> (x as u8))) != 0 {
        fg
    } else {
        bg
    }
}

/// The raw framebuffer: base address, geometry, and the next free text row.
pub struct RawFb {
    pub base: u64,
    pub stride: usize,
    pub width: usize,
    pub height: usize,
    pub current_row: usize,
}

/// Number of text columns on a framebuffer `width` pixels wide (80 when unknown).
pub open spec fn spec_max_cols(width: usize) -> int {
    if width > 0 { (width as int) / (FONT_WIDTH as int) } else { 80 }
}

/// Number of text rows on a framebuffer `height` pixels tall (25 when unknown).
pub open spec fn spec_max_rows(height: usize) -> int {
    if height > 0 { (height as int) / (FONT_HEIGHT as int) } else { 25 }
}

/// The cells `print_at` draws: characters of `s` from column `col` on, up
/// to the first newline or the last column.
pub open spec fn spec_print_at(max_cols: int, col: int, s: Seq<char>) -> Seq<(usize, char)>
    decreases s.len(),
{
    if s.len() == 0 || s[0] == '\n' || col >= max_cols {
        Seq::empty()
    } else {
        seq![(col as usize, s[0])] + spec_print_at(max_cols, col + 1, s.drop_first())
    }
}

impl RawFb {
    /// A framebuffer that is not ready.
    pub fn new() -> (r: RawFb)
        ensures
            r.base == 0 && r.stride == 0 && r.width == 0 && r.height == 0 && r.current_row == 0,
    {
        RawFb { base: 0, stride: 0, width: 0, height: 0, current_row: 0 }
    }

    /// Takes over the framebuffer of the boot information, unless there is
    /// none or it is the VGA text buffer.
    pub fn init(&mut self, base: u64, stride: u32, width: u32, height: u32)
        ensures
            (base != 0 && base != 0xB8000) ==> (final(self).base == base && final(self).stride == stride
                && final(self).width == width && final(self).height == height && final(self).current_row == 0),
            !(base != 0 && base != 0xB8000) ==> *final(self) == *old(self),
    {
        if base != 0 && base != 0xB8000 {
            self.base = base;
            self.stride = stride as usize;
            self.width = width as usize;
            self.height = height as usize;
            self.current_row = 0;
        }
    }

    /// Whether there is a framebuffer to draw on.
    pub fn is_ready(&self) -> (r: bool)
        ensures
            r == (self.base != 0),
    {
        self.base != 0
    }

    /// Number of text columns.
    pub fn max_cols(&self) -> (r: usize)
        ensures
            r == spec_max_cols(self.width),
    {
        if self.width > 0 { self.width / FONT_WIDTH } else { 80 }
    }

    /// The cells (column, character) that printing `s` at column `col` of a
    /// row draws.
    pub fn print_at(&self, col: usize, s: &Vec<char>) -> (r: Vec<(usize, char)>)
        ensures
            r@ == spec_print_at(spec_max_cols(self.width), col as int, s@),
    {
        let max_cols = self.max_cols();
        let mut out: Vec<(usize, char)> = Vec::new();
        let mut c = col;
        let mut i: usize = 0;
        proof {
            assert(s@.skip(0) =~= s@);
            assert(out@ + spec_print_at(max_cols as int, c as int, s@.skip(0)) =~= spec_print_at(max_cols as int, col as int, s@));
        }
        while i < s.len()
            invariant
                max_cols == spec_max_cols(self.width),
                i <= s@.len(),
                c == col + i,
                out@ + spec_print_at(max_cols as int, c as int, s@.skip(i as int)) == spec_print_at(
                    max_cols as int,
                    col as int,
                    s@,
                ),
                forall|j: int| 0 <= j < i ==> s@[j] != '\n',
                c <= max_cols || i == 0,
            decreases s@.len() - i,
        {
            let ch = s[i];
            proof {
                assert(s@.skip(i as int)[0] == ch);
                assert(s@.skip(i as int).drop_first() =~= s@.skip(i + 1));
            }
            if ch == '\n' || c >= max_cols {
                proof {
                    assert(spec_print_at(max_cols as int, c as int, s@.skip(i as int)) == Seq::<(usize, char)>::empty());
                    assert(out@ + Seq::<(usize, char)>::empty() =~= out@);
                }
                return out;
            }
            out.push((c, ch));
            proof {
                assert(seq![(c, ch)] + spec_print_at(max_cols as int, c + 1, s@.skip(i + 1)) == spec_print_at(
                    max_cols as int,
                    c as int,
                    s@.skip(i as int),
                ));
                assert(out@ + spec_print_at(max_cols as int, c + 1, s@.skip(i + 1)) =~= (out@.drop_last() + seq![(c, ch)])
                    + spec_print_at(max_cols as int, c + 1, s@.skip(i + 1)));
            }
            c = c + 1;
            i = i + 1;
        }
        proof {
            assert(s@.skip(i as int) =~= Seq::<char>::empty());
            assert(out@ + Seq::<(usize, char)>::empty() =~= out@);
        }
        out
    }

    /// Prints a line of text on the next text row, in `fg` on `bg`: the row
    /// counter advances either way; when the row is on screen, the whole row
    /// is first blanked (a space in `fg` on `bg` in each of its columns) and
    /// then `s` is drawn from column 0 as `print_at` draws it. The result is
    /// that drawing: the row, the number of columns blanked, and the text
    /// cells; `None` when the screen is full and nothing is drawn.
    pub fn print(&mut self, s: &Vec<char>, fg: u32, bg: u32) -> (r: Option<PrintedLine>)
        requires
            old(self).current_row < usize::MAX,
        ensures
            final(self).current_row == old(self).current_row + 1,
            final(self).base == old(self).base && final(self).width == old(self).width
                && final(self).height == old(self).height && final(self).stride == old(self).stride,
            r is None <==> old(self).current_row >= spec_max_rows(old(self).height),
            r matches Some(line) ==> {
                &&& line.row == old(self).current_row
                &&& line.blank_cols == spec_max_cols(old(self).width)
                &&& line.cells@ == spec_print_at(spec_max_cols(old(self).width), 0, s@)
                &&& line.fg == fg
                &&& line.bg == bg
            },
    {
        let row = self.current_row;
        self.current_row = self.current_row + 1;
        let max_rows = if self.height > 0 { self.height / FONT_HEIGHT } else { 25 };
        if row < max_rows {
            let blank_cols = self.max_cols();
            let cells = self.print_at(0, s);
            Some(PrintedLine { row, blank_cols, cells, fg, bg })
        } else {
            None
        }
    }

    /// Restarts printing at the top row after the screen was cleared.
    pub fn clear_screen(&mut self)
        ensures
            final(self).current_row == 0,
            final(self).base == old(self).base && final(self).width == old(self).width
                && final(self).height == old(self).height && final(self).stride == old(self).stride,
    {
        self.current_row = 0;
    }

    /// The fault banner, when a framebuffer is set: the number of top rows
    /// painted white-on-red blanks over every column (at most twelve, those
    /// on screen), and the text lines drawn over them, each cut at the last
    /// column and at a newline: the banner on rows 1 and 7, centred by its
    /// 69 bytes; `REASON:` at column 2 and the reason at column 10 on row 3;
    /// the halt notice at column 2 on row 5.
    pub fn draw_fault_banner(&self, reason: &str) -> (r: Option<(usize, Vec<BannerText>)>)
        ensures
            self.base == 0 <==> r is None,
            r matches Some((red_rows, lines)) ==> {
                let maxc = spec_max_cols(self.width);
                let bcol = (if maxc >= 69 { maxc - 69 } else { 0 }) / 2;
                &&& red_rows == (if 12 <= (self.height as int) / 16 { 12 } else { (self.height as int) / 16 })
                &&& lines@.len() == 5
                &&& banner_line(lines@[0], 1, spec_print_at(maxc, bcol, fault_banner_text()), COLOR_YELLOW)
                &&& banner_line(lines@[1], 3, spec_print_at(maxc, 2, "REASON:"@), COLOR_YELLOW)
                &&& banner_line(lines@[2], 3, spec_print_at(maxc, 10, reason@), COLOR_WHITE)
                &&& banner_line(lines@[3], 5, spec_print_at(maxc, 2, halt_notice_text()), COLOR_WHITE)
                &&& banner_line(lines@[4], 7, spec_print_at(maxc, bcol, fault_banner_text()), COLOR_YELLOW)
            },
    {
        if self.base == 0 {
            return None;
        }
        let max_cols = self.max_cols();
        let rows = self.height / FONT_HEIGHT;
        let red_rows = if 12 <= rows { 12 } else { rows };
        let b_col = max_cols.saturating_sub(69) / 2;
        let banner = chars_of("======================= SYSTEM FAULT DETECTED =======================");
        let label = chars_of("REASON:");
        let why = chars_of(reason);
        let halt = chars_of("System halted. Check diagnostic information above.");
        let mut lines: Vec<BannerText> = Vec::new();
        lines.push(BannerText { row: 1, cells: self.print_at(b_col, &banner), fg: COLOR_YELLOW, bg: COLOR_BG_RED });
        lines.push(BannerText { row: 3, cells: self.print_at(2, &label), fg: COLOR_YELLOW, bg: COLOR_BG_RED });
        lines.push(BannerText { row: 3, cells: self.print_at(10, &why), fg: COLOR_WHITE, bg: COLOR_BG_RED });
        lines.push(BannerText { row: 5, cells: self.print_at(2, &halt), fg: COLOR_WHITE, bg: COLOR_BG_RED });
        lines.push(BannerText { row: 7, cells: self.print_at(b_col, &banner), fg: COLOR_YELLOW, bg: COLOR_BG_RED });
        Some((red_rows, lines))
    }
}

/// White text.
pub const COLOR_WHITE: u32 = 0x00FF_FFFF;
/// Yellow text.
pub const COLOR_YELLOW: u32 = 0x00FF_FF55;
/// The fault banner's red background.
pub const COLOR_BG_RED: u32 = 0x0088_0000;

/// A line drawn by `print`: its row, how many columns of the row were
/// blanked first, the text cells (column and character), and its colours.
pub struct PrintedLine {
    pub row: usize,
    pub blank_cols: usize,
    pub cells: Vec<(usize, char)>,
    pub fg: u32,
    pub bg: u32,
}

/// One line of text drawn on the fault banner: its row, the cells (column
/// and character), and its colours.
pub struct BannerText {
    pub row: usize,
    pub cells: Vec<(usize, char)>,
    pub fg: u32,
    pub bg: u32,
}

/// Line `t` is drawn on row `row` with these cells, colour `fg` on the
/// banner's red.
pub open spec fn banner_line(t: BannerText, row: int, cells: Seq<(usize, char)>, fg: u32) -> bool {
    t.row == row && t.cells@ == cells && t.fg == fg && t.bg == COLOR_BG_RED
}

/// The banner line of the fault screens.
pub open spec fn fault_banner_text() -> Seq<char> {
    "======================= SYSTEM FAULT DETECTED ======================="@
}

/// The notice below the reason.
pub open spec fn halt_notice_text() -> Seq<char> {
    "System halted. Check diagnostic information above."@
}

/// The characters of `s`.
pub fn chars_of(s: &str) -> (r: Vec<char>)
    ensures
        r@ == s@,
{
    let n = s.unicode_len();
    let mut out: Vec<char> = Vec::new();
    let mut i: usize = 0;
    while i < n
        invariant
            n == s@.len(),
            i <= n,
            out@ == s@.take(i as int),
        decreases n - i,
    {
        out.push(s.get_char(i));
        proof {
            assert(s@.take(i as int + 1) =~= s@.take(i as int).push(s@[i as int]));
        }
        i = i + 1;
    }
    proof {
        assert(s@.take(n as int) =~= s@);
    }
    out
}

} // verus!
