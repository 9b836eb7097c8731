//! PC Screen Font version 1: a 4-byte header followed by one bitmap glyph
//! per character, `charsize` bytes each, one byte per row of 8 pixels.
use vstd::prelude::*;

verus! {

/// Magic number of a PSF1 font.
pub const MAGIC_V1: u16 = 0x0436;

/// Size of the PSF1 header.
pub const PSF1_HEADER_SIZE: usize = 4;

/// Glyph width of a PSF1 font.
pub const PSF1_CHAR_WIDTH: usize = 8;

/// The PSF1 header.
#[derive(Clone, Copy, Debug, PartialEq, Eq, Structural)]
pub struct PSF1Header {
    pub magic: u16,
    pub mode: u8,
    pub charsize: u8,
}

/// A loaded font: its header and the glyph bitmaps that follow it.
pub struct PSF1Font {
    pub header: PSF1Header,
    pub glyphs: Vec<u8>,
}

/// The header read from the first four bytes of a font file.
pub open spec fn header_of(data: Seq<u8>) -> PSF1Header {
    PSF1Header {
        magic: (data[0] as u16 | ((data[1] as u16) << 8u16)) as u16,
        mode: data[2],
        charsize: data[3],
    }
}

/// The font file starts with a PSF1 header.
pub open spec fn is_psf1(data: Seq<u8>) -> bool {
    data.len() >= PSF1_HEADER_SIZE && header_of(data).magic == MAGIC_V1
}

/// The glyph shown for `c`: `c` itself when it is ASCII, `?` otherwise.
pub open spec fn glyph_char(c: char) -> char {
    if (c as u32) < 128 {
        c
    } else {
        '?'
    }
}

/// Position of the glyph of `c` in the glyph table.
pub open spec fn glyph_index(c: char) -> nat {
    glyph_char(c) as u32 as nat
}

/// The bytes of the glyph of `c`.
pub open spec fn glyph_bytes(glyphs: Seq<u8>, charsize: nat, c: char) -> Seq<u8> {
    glyphs.subrange((glyph_index(c) * charsize) as int, ((glyph_index(c) + 1) * charsize) as int)
}

/// Whether `data` starts with a PSF1 header (see `is_psf1`).
pub fn has_psf1_header(data: &[u8]) -> (r: bool)
    ensures
        r == is_psf1(data@),
{
    if data.len() < PSF1_HEADER_SIZE {
        return false;
    }
    let magic = data[0] as u16 | ((data[1] as u16) << 8u16);
    magic == MAGIC_V1
}

/// Reads a font file whose magic number has been checked.
pub fn load_font(data: &[u8]) -> (f: PSF1Font)
    requires
        is_psf1(data@),
    ensures
        f.header == header_of(data@),
        f.glyphs@ == data@.subrange(PSF1_HEADER_SIZE as int, data@.len() as int),
{
    let magic = data[0] as u16 | ((data[1] as u16) << 8u16);
    let header = PSF1Header { magic, mode: data[2], charsize: data[3] };
    let mut glyphs: Vec<u8> = Vec::new();
    let mut i: usize = PSF1_HEADER_SIZE;
    while i < data.len()
        invariant
            PSF1_HEADER_SIZE <= i <= data@.len(),
            glyphs@ == data@.subrange(PSF1_HEADER_SIZE as int, i as int),
        decreases data@.len() - i,
    {
        glyphs.push(data[i]);
        i = i + 1;
        proof {
            assert(glyphs@ =~= data@.subrange(PSF1_HEADER_SIZE as int, i as int));
        }
    }
    PSF1Font { header, glyphs }
}

/// The glyph shown for `c`: `c` itself when it is ASCII, `?` otherwise.
pub fn ascii_to_glyph_index(c: char) -> (r: char)
    ensures
        r == glyph_char(c),
{
    if (c as u32) < 128 {
        c
    } else {
        '?'
    }
}

/// The bytes of the glyph of `c` in `font`.
pub fn get_glyph(font: &PSF1Font, c: char) -> (g: &[u8])
    requires
        (glyph_index(c) + 1) * font.header.charsize <= font.glyphs@.len(),
    ensures
        g@ == glyph_bytes(font.glyphs@, font.header.charsize as nat, c),
{
    let index = ascii_to_glyph_index(c) as u32 as usize;
    let glyph_size = font.header.charsize as usize;
    let len = font.glyphs.len();
    proof {
        assert(index * glyph_size <= (index + 1) * glyph_size) by (nonlinear_arith);
        assert(index as nat == glyph_index(c));
    }
    vstd::slice::slice_subrange(font.glyphs.as_slice(), index * glyph_size, (index + 1) * glyph_size)
}

impl PSF1Font {
    /// The glyphs cover every ASCII character.
    pub open spec fn wf(&self) -> bool {
        128 * self.header.charsize <= self.glyphs@.len()
    }

    /// The bytes of the glyph of `c`: its own glyph when `c` is ASCII, the
    /// glyph of `?` otherwise.
    pub fn get_glyph(&self, c: char) -> (g: &[u8])
        requires
            self.wf(),
        ensures
            g@ == glyph_bytes(self.glyphs@, self.header.charsize as nat, c),
            g@.len() == self.header.charsize,
    {
        proof {
            assert(glyph_index(c) < 128);
            assert((glyph_index(c) + 1) * self.header.charsize <= 128 * self.header.charsize)
                by (nonlinear_arith)
                requires glyph_index(c) < 128;
            assert(glyph_index(c) * self.header.charsize <= (glyph_index(c) + 1) * self.header.charsize)
                by (nonlinear_arith);
            assert((glyph_index(c) + 1) * self.header.charsize - glyph_index(c) * self.header.charsize
                == self.header.charsize) by (nonlinear_arith);
        }
        get_glyph(self, ascii_to_glyph_index(c))
    }

    /// Width of a glyph in pixels.
    pub fn char_width(&self) -> (w: usize)
        ensures
            w == PSF1_CHAR_WIDTH,
    {
        PSF1_CHAR_WIDTH
    }

    /// Height of a glyph in pixels.
    pub fn char_height(&self) -> (h: usize)
        ensures
            h == self.header.charsize,
    {
        self.header.charsize as usize
    }
}

} // verus!
