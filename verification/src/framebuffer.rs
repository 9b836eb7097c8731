//! Text console on a linear 32-bit framebuffer: glyphs drawn at a cursor
//! that wraps at the right edge, with the screen scrolled up one text line
//! when the cursor runs past the bottom.
use vstd::prelude::*;
use crate::font::{PSF1Font, PSF1_HEADER_SIZE, glyph_bytes, header_of, is_psf1, load_font};
use vstd::string::StrSliceExecFns;

verus! {

/// Bits per pixel of the framebuffer the console prefers.
pub const PREFERRED_BPP: u16 = 32;

/// Default colours: opaque white on transparent black.
pub const DEFAULT_FG: u32 = 0xFFFF_FFFF;
pub const DEFAULT_BG: u32 = 0x0000_0000;

/// A framebuffer as the bootloader describes it.
#[derive(Clone, Copy, Debug, PartialEq, Eq, Structural)]
pub struct FramebufferDesc {
    pub address: u64,
    pub width: u64,
    pub height: u64,
    pub pitch: u64,
    pub bpp: u16,
}

/// Framebuffer `i` is the first one of 32 bits per pixel.
pub open spec fn is_first_32bpp(fbs: Seq<FramebufferDesc>, i: int) -> bool {
    &&& 0 <= i < fbs.len()
    &&& fbs[i].bpp == PREFERRED_BPP
    &&& forall|j: int| 0 <= j < i ==> (#[trigger] fbs[j]).bpp != PREFERRED_BPP
}

/// The framebuffer the console uses: the first one of 32 bits per pixel,
/// or else the first one.
pub open spec fn chosen_framebuffer(fbs: Seq<FramebufferDesc>) -> Option<FramebufferDesc> {
    if fbs.len() == 0 {
        None
    } else if exists|i: int| is_first_32bpp(fbs, i) {
        Some(fbs[choose|i: int| is_first_32bpp(fbs, i)])
    } else {
        Some(fbs[0])
    }
}

/// Picks the framebuffer the console uses (see `chosen_framebuffer`).
pub fn get_framebuffer(fbs: &Vec<FramebufferDesc>) -> (r: Option<FramebufferDesc>)
    ensures
        r == chosen_framebuffer(fbs@),
{
    let n = fbs.len();
    if n == 0 {
        return None;
    }
    let mut i: usize = 0;
    while i < n
        invariant
            n == fbs@.len(),
            0 <= i <= n,
            forall|j: int| 0 <= j < i ==> (#[trigger] fbs@[j]).bpp != PREFERRED_BPP,
        decreases n - i,
    {
        if fbs[i].bpp == PREFERRED_BPP {
            proof {
                let k = choose|k: int| is_first_32bpp(fbs@, k);
                assert(is_first_32bpp(fbs@, i as int));
                assert(is_first_32bpp(fbs@, k));
                if k < i {
                    assert(fbs@[k].bpp != PREFERRED_BPP);
                }
                if i < k {
                    assert(fbs@[i as int].bpp != PREFERRED_BPP);
                }
            }
            return Some(fbs[i]);
        }
        i = i + 1;
    }
    proof {
        if exists|k: int| is_first_32bpp(fbs@, k) {
            let k = choose|k: int| is_first_32bpp(fbs@, k);
            assert(fbs@[k].bpp != PREFERRED_BPP);
        }
    }
    Some(fbs[0])
}

/// Fills the `width * height` pixels of the framebuffer with `color`.
pub fn clear_framebuffer(screen: &mut Vec<u32>, fb: &FramebufferDesc, color: u32)
    requires
        fb.width * fb.height <= old(screen)@.len(),
    ensures
        final(screen)@.len() == old(screen)@.len(),
        forall|i: int|
            0 <= i < final(screen)@.len() ==> #[trigger] final(screen)@[i] == if i < fb.width * fb.height {
                color
            } else {
                old(screen)@[i]
            },
{
    let len = screen.len();
    let total = (fb.width * fb.height) as usize;
    let mut i: usize = 0;
    while i < total
        invariant
            total == fb.width * fb.height,
            total <= len,
            len == screen@.len(),
            0 <= i <= total,
            forall|j: int|
                0 <= j < screen@.len() ==> #[trigger] screen@[j] == if j < i {
                    color
                } else {
                    old(screen)@[j]
                },
        decreases total - i,
    {
        screen.set(i, color);
        i = i + 1;
    }
}

/// A pixel whose four bytes all equal `b`.
pub open spec fn splat(b: u8) -> u32 {
    (b as u32 * 0x0101_0101u32) as u32
}

/// The screen scrolled up by `ch` pixel rows: rows move up and the freed
/// rows at the bottom are filled with `fill`.
pub open spec fn scroll(s: Seq<u32>, w: nat, h: nat, ch: nat, fill: u32) -> Seq<u32> {
    Seq::new(
        s.len(),
        |i: int|
            if i < w * (h - ch) {
                s[i + w * ch]
            } else if i < w * h {
                fill
            } else {
                s[i]
            },
    )
}

/// Colour of pixel (`row`, `col`) of a glyph.
pub open spec fn glyph_color(glyph: Seq<u8>, row: int, col: int, fg: u32, bg: u32) -> u32 {
    if (glyph[row] >> ((7 - col) as u8)) & 1u8 == 1u8 {
        fg
    } else {
        bg
    }
}

/// Pixel `i` of a screen `w` pixels wide lies in the glyph cell at
/// (`cx`, `cy`), within its first `rows` rows and then `cols` columns.
pub open spec fn in_cell(i: int, w: nat, cx: nat, cy: nat, rows: nat, cols: nat) -> bool {
    &&& cx <= i % (w as int) < cx + 8
    &&& cy <= i / (w as int)
    &&& (i / (w as int) < cy + rows || (i / (w as int) == cy + rows && i % (w as int) < cx + cols))
}

/// The screen with the first `rows` rows and `cols` more columns of the
/// glyph drawn at (`cx`, `cy`); pixels off the screen are not drawn.
pub open spec fn painted(
    s: Seq<u32>,
    w: nat,
    cx: nat,
    cy: nat,
    rows: nat,
    cols: nat,
    glyph: Seq<u8>,
    fg: u32,
    bg: u32,
) -> Seq<u32> {
    Seq::new(
        s.len(),
        |i: int|
            if w > 0 && in_cell(i, w, cx, cy, rows, cols) {
                glyph_color(glyph, i / (w as int) - cy, i % (w as int) - cx, fg, bg)
            } else {
                s[i]
            },
    )
}

/// The screen with the whole glyph drawn at (`cx`, `cy`).
pub open spec fn draw_glyph(
    s: Seq<u32>,
    w: nat,
    cx: nat,
    cy: nat,
    ch: nat,
    glyph: Seq<u8>,
    fg: u32,
    bg: u32,
) -> Seq<u32> {
    painted(s, w, cx, cy, ch, 0, glyph, fg, bg)
}

proof fn lemma_cell_index(i: int, w: int, x: int, y: int)
    requires
        w > 0,
        0 <= x < w,
        0 <= y,
        0 <= i,
    ensures
        (i / w == y && i % w == x) <==> i == y * w + x,
{
    if i == y * w + x {
        vstd::arithmetic::div_mod::lemma_fundamental_div_mod_converse(i, w, y, x);
    }
    if i / w == y && i % w == x {
        vstd::arithmetic::div_mod::lemma_fundamental_div_mod(i, w);
        assert(w * (i / w) == y * w) by (nonlinear_arith)
            requires i / w == y;
    }
}

proof fn lemma_paint_step(
    s0: Seq<u32>,
    w: nat,
    h: nat,
    cx: nat,
    cy: nat,
    row: nat,
    col: nat,
    g: Seq<u8>,
    fg: u32,
    bg: u32,
)
    requires
        s0.len() == w * h,
        col < 8,
    ensures
        (cx + col < w && cy + row < h) ==> (cy + row) * w + cx + col < s0.len() && painted(
            s0,
            w,
            cx,
            cy,
            row,
            col + 1,
            g,
            fg,
            bg,
        ) == painted(s0, w, cx, cy, row, col, g, fg, bg).update(
            ((cy + row) * w + cx + col) as int,
            glyph_color(g, row as int, col as int, fg, bg),
        ),
        !(cx + col < w && cy + row < h) ==> painted(s0, w, cx, cy, row, col + 1, g, fg, bg) == painted(
            s0,
            w,
            cx,
            cy,
            row,
            col,
            g,
            fg,
            bg,
        ),
{
    let x = cx + col;
    let y = cy + row;
    let a = painted(s0, w, cx, cy, row, col, g, fg, bg);
    let b = painted(s0, w, cx, cy, row, col + 1, g, fg, bg);
    if x < w && y < h {
        let p = (y * w + x) as int;
        assert(y * w + x < w * h) by (nonlinear_arith)
            requires x < w, y < h;
        assert forall|i: int| 0 <= i < s0.len() implies #[trigger] b[i] == a.update(p, glyph_color(g, row as int, col as int, fg, bg))[i] by {
            lemma_cell_index(i, w as int, x as int, y as int);
            vstd::arithmetic::div_mod::lemma_mod_bound(i, w as int);
        }
        assert(b =~= a.update(p, glyph_color(g, row as int, col as int, fg, bg)));
    } else {
        assert forall|i: int| 0 <= i < s0.len() implies #[trigger] b[i] == a[i] by {
            if w > 0 {
                vstd::arithmetic::div_mod::lemma_mod_bound(i, w as int);
                vstd::arithmetic::div_mod::lemma_fundamental_div_mod(i, w as int);
                if i / (w as int) == y && i % (w as int) == x {
                    assert(x < w);
                    assert(y >= h);
                    assert(w * (i / (w as int)) >= w * h) by (nonlinear_arith)
                        requires i / (w as int) == y, y >= h;
                    assert(false);
                }
            }
        }
        assert(b =~= a);
    }
}

/// Cursor and screen after character `c` is written by a console with the
/// fixed settings of `o` and the cursor at (`cx`, `cy`).  A newline moves
/// the cursor to the start of the next line.  Any other character scrolls
/// the screen up one line first if the line at the cursor would pass the
/// bottom, then draws the character's glyph at the cursor and moves the
/// cursor one cell right, or to the start of the next line when it reaches
/// the right edge.
pub open spec fn char_effect(o: Console, cx: int, cy: int, s: Seq<u32>, c: char) -> (int, int, Seq<u32>) {
    if c == '\n' {
        (0, cy + o.ch(), s)
    } else {
        let scrolls = cy + o.ch() > o.h();
        let s1 = if scrolls {
            scroll(s, o.w(), o.h(), o.ch(), splat(o.bg_color as u8))
        } else {
            s
        };
        let y: int = if scrolls { cy - o.ch() } else { cy };
        let s2 = draw_glyph(
            s1,
            o.w(),
            cx as nat,
            y as nat,
            o.ch(),
            glyph_bytes(o.font.glyphs@, o.ch(), c),
            o.fg_color,
            o.bg_color,
        );
        let nx = cx + 8;
        if nx >= o.max_cursor_x * 8 {
            (0, y + o.ch(), s2)
        } else {
            (nx, y, s2)
        }
    }
}

/// Cursor and screen after the characters `cs` are written in turn.
pub open spec fn str_effect(o: Console, cx: int, cy: int, s: Seq<u32>, cs: Seq<char>) -> (int, int, Seq<u32>)
    decreases cs.len(),
{
    if cs.len() == 0 {
        (cx, cy, s)
    } else {
        let (x, y, s1) = str_effect(o, cx, cy, s, cs.drop_last());
        char_effect(o, x, y, s1, cs.last())
    }
}

/// A newline moves the cursor to the start of the next text line, whatever
/// column it was in, and draws nothing.
pub proof fn law_newline_starts_next_line(o: Console, cx: int, cy: int, s: Seq<u32>)
    ensures
        char_effect(o, cx, cy, s, '\n') == (0int, cy + o.ch(), s),
{
}

/// After a string that ends with a newline, the cursor is at the start of
/// the line below the one the rest of the string left it on, and the
/// screen is as the rest of the string left it.
pub proof fn law_string_ending_in_newline(o: Console, cx: int, cy: int, s: Seq<u32>, cs: Seq<char>)
    ensures
        ({
            let (x, y, s1) = str_effect(o, cx, cy, s, cs);
            str_effect(o, cx, cy, s, cs.push('\n')) == (0int, y + o.ch(), s1)
        }),
{
    assert(cs.push('\n').drop_last() =~= cs);
}

/// A character drawn when its line would pass the bottom of the screen
/// first scrolls the screen up one text line: outside the new glyph's
/// cell, each pixel above the last text line shows the pixel one text line
/// below it, and each pixel of the last text line is the background fill.
pub proof fn law_scroll_clears_last_line(o: Console, cx: int, cy: int, s: Seq<u32>, c: char, i: int)
    requires
        c != '\n',
        o.ch() <= o.h(),
        cy + o.ch() > o.h(),
        cy >= o.ch(),
        cx >= 0,
        s.len() == o.w() * o.h(),
        0 <= i < o.w() * o.h(),
        !in_cell(i, o.w(), cx as nat, (cy - o.ch()) as nat, o.ch(), 0),
    ensures
        i < o.w() * (o.h() - o.ch()) ==> char_effect(o, cx, cy, s, c).2[i] == s[i + o.w() * o.ch()],
        i >= o.w() * (o.h() - o.ch()) ==> char_effect(o, cx, cy, s, c).2[i] == splat(o.bg_color as u8),
        char_effect(o, cx, cy, s, c).2.len() == s.len(),
{
}

/// The text console.
pub struct Console {
    pub framebuffer: FramebufferDesc,
    pub cursor_x: usize,
    pub cursor_y: usize,
    pub max_cursor_x: usize,
    pub font: PSF1Font,
    pub fg_color: u32,
    pub bg_color: u32,
}

impl Console {
    /// Width of the screen in pixels.
    pub open spec fn w(&self) -> nat {
        self.framebuffer.width as nat
    }

    /// Height of the screen in pixels.
    pub open spec fn h(&self) -> nat {
        self.framebuffer.height as nat
    }

    /// Height of a text line.
    pub open spec fn ch(&self) -> nat {
        self.font.header.charsize as nat
    }

    /// The font covers ASCII, a text line fits on the screen, the screen's
    /// bytes fit in memory, and the cursor can move one more cell.
    pub open spec fn wf(&self) -> bool {
        &&& self.font.wf()
        &&& self.ch() <= self.h()
        &&& self.w() * self.h() * 4 <= usize::MAX
        &&& self.w() * 4 <= usize::MAX
        &&& self.h() * 4 <= usize::MAX
        &&& self.max_cursor_x == self.w() / 8
    }

    /// A console at the top left of `framebuffer`, white on black.
    pub fn new(framebuffer: FramebufferDesc, font: PSF1Font) -> (c: Console)
        requires
            framebuffer.width <= usize::MAX,
        ensures
            c.framebuffer == framebuffer,
            c.font == font,
            c.cursor_x == 0,
            c.cursor_y == 0,
            c.max_cursor_x == framebuffer.width / 8,
            c.fg_color == DEFAULT_FG,
            c.bg_color == DEFAULT_BG,
    {
        Console {
            framebuffer,
            cursor_x: 0,
            cursor_y: 0,
            max_cursor_x: framebuffer.width as usize / 8,
            font,
            fg_color: DEFAULT_FG,
            bg_color: DEFAULT_BG,
        }
    }

    /// Scrolls the screen up by one text line.
    fn scroll_up(&self, screen: &mut Vec<u32>)
        requires
            self.wf(),
            old(screen)@.len() == self.w() * self.h(),
        ensures
            final(screen)@ == scroll(old(screen)@, self.w(), self.h(), self.ch(), splat(self.bg_color as u8)),
            final(screen)@.len() == old(screen)@.len(),
            forall|i: int|
                0 <= i < self.w() * (self.h() - self.ch()) ==> #[trigger] final(screen)@[i] == old(screen)@[i
                    + self.w() * self.ch()],
            forall|i: int|
                self.w() * (self.h() - self.ch()) <= i < self.w() * self.h() ==> #[trigger] final(screen)@[i]
                    == splat(self.bg_color as u8),
    {
        let w = self.framebuffer.width as usize;
        let h = self.framebuffer.height as usize;
        let ch = self.font.header.charsize as usize;
        proof {
            assert(w * (h - ch) + w * ch == w * h) by (nonlinear_arith)
                requires ch <= h;
            assert(w * ch <= w * h) by (nonlinear_arith)
                requires ch <= h;
            assert(w * h <= w * h * 4) by (nonlinear_arith);
        }
        let keep = w * (h - ch);
        let shift = w * ch;
        let total = w * h;
        let ghost s0 = screen@;
        let mut i: usize = 0;
        while i < keep
            invariant
                keep + shift == total,
                total == s0.len(),
                screen@.len() == s0.len(),
                0 <= i <= keep,
                forall|j: int| 0 <= j < i ==> #[trigger] screen@[j] == s0[j + shift],
                forall|j: int| i <= j < s0.len() ==> #[trigger] screen@[j] == s0[j],
            decreases keep - i,
        {
            let v = screen[i + shift];
            screen.set(i, v);
            i = i + 1;
        }
        let fill: u32 = (self.bg_color as u8) as u32 * 0x0101_0101u32;
        let mut j: usize = keep;
        while j < total
            invariant
                keep + shift == total,
                total == s0.len(),
                screen@.len() == s0.len(),
                keep <= j <= total,
                fill == splat(self.bg_color as u8),
                forall|k: int| 0 <= k < keep ==> #[trigger] screen@[k] == s0[k + shift],
                forall|k: int| keep <= k < j ==> #[trigger] screen@[k] == fill,
                forall|k: int| j <= k < s0.len() ==> #[trigger] screen@[k] == s0[k],
            decreases total - j,
        {
            screen.set(j, fill);
            j = j + 1;
        }
        proof {
            assert(screen@ =~= scroll(s0, self.w(), self.h(), self.ch(), splat(self.bg_color as u8)));
        }
    }

    /// Draws the glyph `glyph` with its top left corner at (`cx`, `cy`).
    fn draw(&self, screen: &mut Vec<u32>, glyph: &[u8], cx: usize, cy: usize)
        requires
            self.wf(),
            old(screen)@.len() == self.w() * self.h(),
            glyph@.len() == self.ch(),
            cx + 8 <= usize::MAX,
            cy + self.ch() <= usize::MAX,
        ensures
            final(screen)@ == draw_glyph(
                old(screen)@,
                self.w(),
                cx as nat,
                cy as nat,
                self.ch(),
                glyph@,
                self.fg_color,
                self.bg_color,
            ),
    {
        let w = self.framebuffer.width as usize;
        let h = self.framebuffer.height as usize;
        let ch = self.font.header.charsize as usize;
        let ghost s0 = screen@;
        let ghost g = glyph@;
        let ghost wn = self.w();
        let ghost fg = self.fg_color;
        let ghost bg = self.bg_color;
        proof {
            assert(w * h <= w * h * 4) by (nonlinear_arith);
        }
        let mut row: usize = 0;
        while row < ch
            invariant
                self.wf(),
                w == wn,
                h == self.h(),
                ch == self.ch(),
                g == glyph@,
                g.len() == ch,
                fg == self.fg_color,
                bg == self.bg_color,
                s0.len() == w * h,
                w * h <= usize::MAX,
                cx + 8 <= usize::MAX,
                cy + ch <= usize::MAX,
                0 <= row <= ch,
                screen@ == painted(s0, wn, cx as nat, cy as nat, row as nat, 0, g, fg, bg),
            decreases ch - row,
        {
            let bits = glyph[row];
            let mut col: usize = 0;
            while col < 8
                invariant
                    self.wf(),
                    w == wn,
                    h == self.h(),
                    ch == self.ch(),
                    g == glyph@,
                    g.len() == ch,
                    fg == self.fg_color,
                    bg == self.bg_color,
                    s0.len() == w * h,
                    w * h <= usize::MAX,
                    cx + 8 <= usize::MAX,
                    cy + ch <= usize::MAX,
                    row < ch,
                    bits == g[row as int],
                    0 <= col <= 8,
                    screen@ == painted(s0, wn, cx as nat, cy as nat, row as nat, col as nat, g, fg, bg),
                decreases 8 - col,
            {
                let color = if (bits >> ((7 - col) as u8)) & 1u8 == 1u8 {
                    self.fg_color
                } else {
                    self.bg_color
                };
                let x = cx + col;
                let y = cy + row;
                proof {
                    lemma_paint_step(s0, wn, self.h(), cx as nat, cy as nat, row as nat, col as nat, g, fg, bg);
                }
                if x < w && y < h {
                    proof {
                        assert(y * w + x < w * h) by (nonlinear_arith)
                            requires x < w, y < h;
                    }
                    let p = y * w + x;
                    screen.set(p, color);
                }
                col = col + 1;
            }
            proof {
                assert(screen@ =~= painted(s0, wn, cx as nat, cy as nat, row as nat + 1, 0, g, fg, bg));
            }
            row = row + 1;
        }
    }

    /// Writes one character.  A newline moves the cursor to the start of
    /// the next line.  Any other character scrolls the screen up one line
    /// first if the line at the cursor would pass the bottom, then draws
    /// the character's glyph at the cursor and moves the cursor one cell
    /// right, or to the start of the next line at the right edge.
    pub fn write_char(&mut self, c: char, screen: &mut Vec<u32>)
        requires
            old(self).wf(),
            old(screen)@.len() == old(self).w() * old(self).h(),
            old(self).cursor_x + 8 <= usize::MAX,
            old(self).cursor_y + old(self).ch() <= usize::MAX,
            c != '\n' && old(self).cursor_y + old(self).ch() > old(self).h() ==> old(self).cursor_y
                >= old(self).ch(),
        ensures
            final(self).wf(),
            final(self).framebuffer == old(self).framebuffer,
            final(self).font == old(self).font,
            final(self).max_cursor_x == old(self).max_cursor_x,
            final(self).fg_color == old(self).fg_color,
            final(self).bg_color == old(self).bg_color,
            (final(self).cursor_x as int, final(self).cursor_y as int, final(screen)@) == char_effect(
                *old(self),
                old(self).cursor_x as int,
                old(self).cursor_y as int,
                old(screen)@,
                c,
            ),
            c == '\n' ==> final(self).cursor_x == 0 && final(self).cursor_y == old(self).cursor_y + old(self).ch()
                && final(screen)@ == old(screen)@,
    {
        let ch = self.font.char_height();
        if c == '\n' {
            self.cursor_x = 0;
            self.cursor_y = self.cursor_y + ch;
            return;
        }
        let h = self.framebuffer.height as usize;
        if self.cursor_y + ch > h {
            self.scroll_up(screen);
            self.cursor_y = self.cursor_y - ch;
        }
        let cx = self.cursor_x;
        let cy = self.cursor_y;
        let glyph = self.font.get_glyph(c);
        self.draw(screen, glyph, cx, cy);
        self.cursor_x = self.cursor_x + 8;
        proof {
            assert(self.max_cursor_x * 8 <= self.w()) by (nonlinear_arith)
                requires self.max_cursor_x == self.w() / 8;
        }
        if self.cursor_x >= self.max_cursor_x * 8 {
            self.cursor_x = 0;
            self.cursor_y = self.cursor_y + ch;
        }
    }

    /// Writes each character of `s` in turn.
    pub fn write_str(&mut self, s: &str, screen: &mut Vec<u32>)
        requires
            old(self).wf(),
            old(screen)@.len() == old(self).w() * old(self).h(),
            old(self).cursor_x == 0 || old(self).cursor_x < old(self).max_cursor_x * 8,
            old(self).cursor_y + (s@.len() + 1) * old(self).ch() <= usize::MAX,
            old(self).ch() > 0 ==> (old(self).cursor_y as nat) % old(self).ch() == 0,
        ensures
            final(self).wf(),
            final(self).framebuffer == old(self).framebuffer,
            final(self).font == old(self).font,
            final(self).max_cursor_x == old(self).max_cursor_x,
            final(self).fg_color == old(self).fg_color,
            final(self).bg_color == old(self).bg_color,
            (final(self).cursor_x as int, final(self).cursor_y as int, final(screen)@) == str_effect(
                *old(self),
                old(self).cursor_x as int,
                old(self).cursor_y as int,
                old(screen)@,
                s@,
            ),
    {
        let n = s.unicode_len();
        let mut i: usize = 0;
        proof {
            assert(s@.take(0) =~= Seq::<char>::empty());
        }
        while i < n
            invariant
                n == s@.len(),
                0 <= i <= n,
                self.wf(),
                self.framebuffer == old(self).framebuffer,
                self.font == old(self).font,
                self.max_cursor_x == old(self).max_cursor_x,
                self.fg_color == old(self).fg_color,
                self.bg_color == old(self).bg_color,
                screen@.len() == self.w() * self.h(),
                self.cursor_x == 0 || self.cursor_x < self.max_cursor_x * 8,
                self.cursor_y + (n - i + 1) * self.ch() <= usize::MAX,
                self.ch() > 0 ==> (self.cursor_y as nat) % self.ch() == 0,
                (self.cursor_x as int, self.cursor_y as int, screen@) == str_effect(
                    *old(self),
                    old(self).cursor_x as int,
                    old(self).cursor_y as int,
                    old(screen)@,
                    s@.take(i as int),
                ),
            decreases n - i,
        {
            let c = s.get_char(i);
            proof {
                assert(self.max_cursor_x * 8 <= self.w()) by (nonlinear_arith)
                    requires self.max_cursor_x == self.w() / 8;
                assert((n - i + 1) * self.ch() == (n - i) * self.ch() + self.ch()) by (nonlinear_arith);
                assert(self.cursor_x + 8 <= usize::MAX);
                assert(char_effect(*self, self.cursor_x as int, self.cursor_y as int, screen@, c)
                    == char_effect(*old(self), self.cursor_x as int, self.cursor_y as int, screen@, c));
            }
            let ghost cy0 = self.cursor_y as int;
            let ghost chn = self.ch() as int;
            proof {
                if chn > 0 && cy0 < chn {
                    vstd::arithmetic::div_mod::lemma_small_mod(cy0 as nat, chn as nat);
                }
            }
            self.write_char(c, screen);
            proof {
                if chn > 0 {
                    vstd::arithmetic::div_mod::lemma_mod_multiples_vanish(1, cy0, chn);
                    vstd::arithmetic::div_mod::lemma_mod_multiples_vanish(-1, cy0, chn);
                    assert(chn * 1 + cy0 == cy0 + chn);
                    assert(chn * -1 + cy0 == cy0 - chn);
                }
                assert(s@.take(i as int + 1).drop_last() =~= s@.take(i as int));
                assert(s@.take(i as int + 1).last() == c);
                assert((n - (i + 1) + 1) * self.ch() == (n - i) * self.ch()) by (nonlinear_arith);
            }
            i = i + 1;
        }
        proof {
            assert(s@.take(n as int) =~= s@);
        }
    }
}


/// Sets the console up: on the chosen framebuffer, if there is one, the
/// screen is cleared to black and a console is made at its top left with
/// the font read from `font_data`; with no framebuffer there is no console.
pub fn init_global_console(fbs: &Vec<FramebufferDesc>, screen: &mut Vec<u32>, font_data: &[u8]) -> (r: Option<
    Console,
>)
    requires
        chosen_framebuffer(fbs@) matches Some(fb) ==> {
            &&& is_psf1(font_data@)
            &&& fb.width * fb.height <= old(screen)@.len()
            &&& fb.width <= usize::MAX
        },
    ensures
        match chosen_framebuffer(fbs@) {
            None => r is None && final(screen)@ == old(screen)@,
            Some(fb) => {
                &&& r matches Some(c)
                &&& c.framebuffer == fb
                &&& c.cursor_x == 0
                &&& c.cursor_y == 0
                &&& c.max_cursor_x == fb.width / 8
                &&& c.fg_color == DEFAULT_FG
                &&& c.bg_color == DEFAULT_BG
                &&& c.font.header == header_of(font_data@)
                &&& c.font.glyphs@ == font_data@.subrange(PSF1_HEADER_SIZE as int, font_data@.len() as int)
                &&& final(screen)@.len() == old(screen)@.len()
                &&& forall|i: int|
                    0 <= i < final(screen)@.len() ==> #[trigger] final(screen)@[i] == if i < fb.width
                        * fb.height {
                        DEFAULT_BG
                    } else {
                        old(screen)@[i]
                    }
            },
        },
{
    match get_framebuffer(fbs) {
        None => None,
        Some(fb) => {
            clear_framebuffer(screen, &fb, DEFAULT_BG);
            let font = load_font(font_data);
            Some(Console::new(fb, font))
        },
    }
}

} // verus!
