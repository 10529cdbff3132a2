//! The braille grid: a 2x4 grid of dots per terminal cell.
//!
//! Each cell becomes one braille character whose dots are the subcells
//! set in it, drawn in the cell's color. Dots are addressed by subcell
//! coordinate (`x * 2`, `y * 4` for a cell's first dot). What color a cell
//! takes is decided from the colors its dots were set with: every color
//! set in a cell is kept, and the caller averages them.

use vstd::prelude::*;

use crate::buffer::{in_area, index_in, lemma_area_fits, Buffer, CellView};
use crate::compositor::sound;
use crate::draw::{lemma_put_same, lemma_region_ends, lemma_region_step, region_map, with_fg, with_symbol};
use crate::geometry::Rect;
use crate::strings::string_of_char;
use crate::style::Color;

verus! {

/// The Unicode dot pattern of a braille cell whose dots are given as bits
/// in row-major order (bit `row * 2 + column`): Unicode numbers the dots
/// down the left column first, then the right, then the bottom row.
pub open spec fn braille_dots(bits: u8) -> u32 {
    let b = bits as u32;
    (b & 1) | (((b >> 1) & 1) << 3) | (((b >> 2) & 1) << 1) | (((b >> 3) & 1) << 4) | (((b >> 4) & 1)
        << 2) | (((b >> 5) & 1) << 5) | (((b >> 6) & 1) << 6) | (((b >> 7) & 1) << 7)
}

/// The braille character with the dots `bits`, in row-major order.
///
/// Trusted: reads `ratatui_core::symbols::braille::BRAILLE`. The contract
/// states the table: entry `bits` is the character `U+2800` plus the
/// Unicode dot pattern of those dots.
#[verifier::external_body]
fn braille_symbol(bits: u8) -> (c: char)
    ensures
        c == braille_char(bits),
{
    ratatui_core::symbols::braille::BRAILLE[bits as usize]
}

/// A dot grid over a cell area, resolved into braille characters.
#[derive(Debug)]
pub struct BrailleGrid {
    area: Rect,
    dots: Vec<u8>,
    samples: Vec<Vec<Color>>,
}

impl BrailleGrid {
    /// The cell area the grid covers.
    pub closed spec fn cells(&self) -> Rect {
        self.area
    }

    /// The dots set in each cell, row-major.
    pub closed spec fn dots(&self) -> Seq<u8> {
        self.dots@
    }

    /// The colors each cell's dots were set with, in the order set.
    pub closed spec fn samples(&self) -> Seq<Seq<Color>> {
        self.samples@.map_values(|s: Vec<Color>| s@)
    }

    /// One dot byte and one color list per covered cell.
    pub closed spec fn wf(&self) -> bool {
        &&& self.dots@.len() == self.area.width * self.area.height
        &&& self.samples@.len() == self.area.width * self.area.height
    }

    /// An empty grid covering `area`.
    pub fn new(area: Rect) -> (g: BrailleGrid)
        ensures
            g.wf(),
            g.cells() == area,
            g.dots() == Seq::new((area.width * area.height) as nat, |i: int| 0u8),
            g.samples() == Seq::new((area.width * area.height) as nat, |i: int| Seq::<Color>::empty()),
    {
        let mut grid = BrailleGrid { area: Rect::zero(), dots: Vec::new(), samples: Vec::new() };
        grid.reset(area);
        grid
    }

    /// Clears the grid and refits it to `area`.
    pub fn reset(&mut self, area: Rect)
        ensures
            final(self).wf(),
            final(self).cells() == area,
            final(self).dots() == Seq::new((area.width * area.height) as nat, |i: int| 0u8),
            final(self).samples() == Seq::new(
                (area.width * area.height) as nat,
                |i: int| Seq::<Color>::empty(),
            ),
    {
        proof {
            lemma_area_fits(area);
        }
        let cells = (area.width as usize) * (area.height as usize);
        self.area = area;
        self.dots = Vec::new();
        self.samples = Vec::new();
        let mut i: usize = 0;
        while i < cells
            invariant
                i <= cells,
                cells == area.width * area.height,
                self.area == area,
                self.dots@.len() == i,
                self.samples@.len() == i,
                forall|k: int| 0 <= k < i ==> #[trigger] self.dots@[k] == 0u8,
                forall|k: int| 0 <= k < i ==> (#[trigger] self.samples@[k])@ == Seq::<Color>::empty(),
            decreases cells - i,
        {
            self.dots.push(0);
            self.samples.push(Vec::new());
            i = i + 1;
        }
        proof {
            assert(self.dots@ =~= Seq::new((area.width * area.height) as nat, |i: int| 0u8));
            assert(self.samples() =~= Seq::new(
                (area.width * area.height) as nat,
                |i: int| Seq::<Color>::empty(),
            ));
        }
    }

    /// The grid in dot coordinates: twice as wide and four times as tall.
    pub fn subcell_area(&self) -> (r: Rect)
        requires
            self.cells().x * 2 <= u16::MAX,
            self.cells().y * 4 <= u16::MAX,
            self.cells().width * 2 <= u16::MAX,
            self.cells().height * 4 <= u16::MAX,
        ensures
            r == Rect::new_spec(
                (self.cells().x * 2) as u16,
                (self.cells().y * 4) as u16,
                (self.cells().width * 2) as u16,
                (self.cells().height * 4) as u16,
            ),
    {
        Rect::new(self.area.x * 2, self.area.y * 4, self.area.width * 2, self.area.height * 4)
    }

    /// The cell and dot bit of dot `(sub_x, sub_y)`: `None` outside the
    /// grid.
    pub open spec fn index_spec(&self, sub_x: int, sub_y: int) -> Option<(int, int)> {
        let column = sub_x - self.cells().x * 2;
        let row = sub_y - self.cells().y * 4;
        if 0 <= column < self.cells().width * 2 && 0 <= row < self.cells().height * 4 {
            Some(((row / 4) * self.cells().width + column / 2, (row % 4) * 2 + column % 2))
        } else {
            None
        }
    }

    /// The cell and dot bit of dot `(sub_x, sub_y)`; see
    /// [`BrailleGrid::index_spec`].
    pub fn index(&self, sub_x: u16, sub_y: u16) -> (r: Option<(usize, u8)>)
        requires
            self.wf(),
        ensures
            r matches Some(p) ==> self.index_spec(sub_x as int, sub_y as int) == Some(
                (p.0 as int, p.1 as int),
            ) && p.0 < self.dots().len() && p.1 < 8,
            r is None ==> self.index_spec(sub_x as int, sub_y as int) is None,
    {
        let left = (self.area.x as usize) * 2;
        let top = (self.area.y as usize) * 4;
        if (sub_x as usize) < left || (sub_y as usize) < top {
            return None;
        }
        let column = (sub_x as usize) - left;
        let row = (sub_y as usize) - top;
        let width = self.area.width as usize;
        if column >= width * 2 || row >= (self.area.height as usize) * 4 {
            return None;
        }
        proof {
            lemma_area_fits(self.area);
            assert((row / 4) * width + column / 2 < width * self.area.height) by (nonlinear_arith)
                requires
                    row < self.area.height * 4,
                    column < width * 2,
            ;
        }
        let bit = ((row % 4) * 2 + column % 2) as u8;
        Some(((row / 4) * width + column / 2, bit))
    }

    /// The number of cells the grid covers.
    pub fn cell_count(&self) -> (n: usize)
        requires
            self.wf(),
        ensures
            n == self.dots().len(),
    {
        self.dots.len()
    }

    /// The colors cell `index` (row-major) was set with, in the order set.
    pub fn cell_samples(&self, index: usize) -> (s: &Vec<Color>)
        requires
            self.wf(),
            index < self.dots().len(),
        ensures
            s@ == self.samples()[index as int],
    {
        &self.samples[index]
    }

    /// Sets dot `(sub_x, sub_y)` in `color`; nothing outside the grid.
    pub fn set(&mut self, sub_x: u16, sub_y: u16, color: Color)
        requires
            old(self).wf(),
        ensures
            final(self).wf(),
            final(self).cells() == old(self).cells(),
            final(self).model() == set_model(old(self).cells(), old(self).model(), sub_x as int, sub_y as int, color),
            match old(self).index_spec(sub_x as int, sub_y as int) {
                Some((cell, bit)) => {
                    &&& final(self).dots() == old(self).dots().update(
                        cell,
                        old(self).dots()[cell] | (1u8 << (bit as u8)),
                    )
                    &&& final(self).samples() == old(self).samples().update(
                        cell,
                        old(self).samples()[cell].push(color),
                    )
                },
                None => final(self).dots() == old(self).dots() && final(self).samples() == old(
                    self,
                ).samples(),
            },
    {
        let (index, bit) = match self.index(sub_x, sub_y) {
            Some(p) => p,
            None => return,
        };
        let d = self.dots[index] | (1u8 << bit);
        self.dots.set(index, d);
        let mut list: Vec<Color> = Vec::new();
        std::mem::swap(&mut list, &mut self.samples[index]);
        list.push(color);
        self.samples.set(index, list);
        proof {
            assert(self.samples() =~= old(self).samples().update(
                index as int,
                old(self).samples()[index as int].push(color),
            ));
        }
    }
}

/// The grid's dots and samples after setting dot `(sub_x, sub_y)` in
/// `color` on a grid over `cells`: the dot's bit set in its cell and the
/// color added to the cell's samples; unchanged outside the grid.
pub open spec fn set_model(
    cells: Rect,
    model: (Seq<u8>, Seq<Seq<Color>>),
    sub_x: int,
    sub_y: int,
    color: Color,
) -> (Seq<u8>, Seq<Seq<Color>>) {
    let column = sub_x - cells.x * 2;
    let row = sub_y - cells.y * 4;
    if 0 <= column < cells.width * 2 && 0 <= row < cells.height * 4 {
        let cell = (row / 4) * cells.width + column / 2;
        let bit = (row % 4) * 2 + column % 2;
        (
            model.0.update(cell, model.0[cell] | (1u8 << (bit as u8))),
            model.1.update(cell, model.1[cell].push(color)),
        )
    } else {
        model
    }
}

impl BrailleGrid {
    /// The grid's dots and samples together.
    pub open spec fn model(&self) -> (Seq<u8>, Seq<Seq<Color>>) {
        (self.dots(), self.samples())
    }
}

/// What resolving a braille grid makes of a buffer cell: where the grid
/// has dots set in the cell and a color for it, the braille character of
/// those dots in that color; the cell untouched otherwise.
pub open spec fn braille_drawn(area: Rect, dots: Seq<u8>, colors: Seq<Option<Color>>) -> spec_fn(
    CellView,
    int,
    int,
) -> CellView {
    |v: CellView, x: int, y: int|
        if in_area(area, x, y) && dots[index_in(area, x, y)] != 0 {
            match colors[index_in(area, x, y)] {
                Some(c) => with_fg(
                    with_symbol(v, seq![braille_char(dots[index_in(area, x, y)])]),
                    c,
                ),
                None => v,
            }
        } else {
            v
        }
}

/// The braille character with the dots `bits`: `U+2800` plus their
/// Unicode dot pattern.
pub open spec fn braille_char(bits: u8) -> char {
    (0x2800 + braille_dots(bits)) as char
}

impl BrailleGrid {
    /// Draws the grid into `buffer`: every cell with dots set and a color
    /// becomes the braille character of its dots in that color; `colors`
    /// gives each cell's color, row-major, as averaged from its samples.
    pub fn resolve_into(&self, buffer: &mut Buffer, colors: &[Option<Color>])
        requires
            self.wf(),
            self.cells().fits(),
            sound(old(buffer)),
            colors@.len() == self.dots().len(),
        ensures
            sound(final(buffer)),
            final(buffer).area == old(buffer).area,
            final(buffer)@ == (old(buffer)@.0, region_map(
                old(buffer)@,
                self.cells(),
                self.cells().width * self.cells().height,
                braille_drawn(self.cells(), self.dots(), colors@),
            )),
    {
        let area = self.area;
        let ghost f = braille_drawn(area, self.dots@, colors@);
        proof {
            lemma_area_fits(area);
            lemma_region_ends(buffer@, area, f);
        }
        let width = area.width as usize;
        let n = self.dots.len();
        if width == 0 {
            proof {
                assert(region_map(buffer@, area, 0, f) == buffer@.1);
            }
            return;
        }
        let ghost m0 = buffer@;
        let mut i: usize = 0;
        while i < n
            invariant
                i <= n,
                n == area.width * area.height,
                width == area.width,
                width > 0,
                area == self.area,
                area.fits(),
                self.wf(),
                colors@.len() == n,
                f == braille_drawn(area, self.dots@, colors@),
                sound(buffer),
                buffer.area == m0.0,
                m0.1.len() == m0.0.width * m0.0.height,
                buffer@ == (m0.0, region_map(m0, area, i as int, f)),
            decreases n - i,
        {
            proof {
                lemma_region_step(m0, area, i as int, f);
                lemma_put_same(buffer@, col_pos(area, i as int), row_pos(area, i as int));
            }
            let bits = self.dots[i];
            if bits != 0 {
                if let Some(color) = colors[i] {
                    let x = area.x + (i % width) as u16;
                    let y = area.y + (i / width) as u16;
                    let c = braille_symbol(bits);
                    let s = string_of_char(c);
                    buffer.put_fg_symbol(x, y, &s, color);
                }
            }
            i = i + 1;
        }
    }
}

/// The column of the `i`th cell of `area`, row-major.
pub open spec fn col_pos(area: Rect, i: int) -> int {
    area.x + i % (area.width as int)
}

/// The row of the `i`th cell of `area`, row-major.
pub open spec fn row_pos(area: Rect, i: int) -> int {
    area.y + i / (area.width as int)
}

/// Braille dots follow Unicode's numbering: the left column's top three
/// dots are dots 1 to 3, the right column's are 4 to 6, and the bottom row
/// is 7 and 8. So the dot at column 0, row 0 is U+2801, column 1, row 0 is
/// U+2808, and so on; and a cell's pattern is the union of its dots'.
pub proof fn lemma_braille_dots_follow_unicode(a: u8, b: u8)
    ensures
        braille_char(0x01) == '\u{2801}',
        braille_char(0x02) == '\u{2808}',
        braille_char(0x04) == '\u{2802}',
        braille_char(0x08) == '\u{2810}',
        braille_char(0x10) == '\u{2804}',
        braille_char(0x20) == '\u{2820}',
        braille_char(0x40) == '\u{2840}',
        braille_char(0x80) == '\u{2880}',
        braille_char(0) == '\u{2800}',
        braille_dots(a | b) == braille_dots(a) | braille_dots(b),
        braille_dots(a) < 256,
{
    assert(braille_dots(0x01) == 0x01 && braille_dots(0x02) == 0x08 && braille_dots(0x04) == 0x02
        && braille_dots(0x08) == 0x10 && braille_dots(0x10) == 0x04 && braille_dots(0x20) == 0x20
        && braille_dots(0x40) == 0x40 && braille_dots(0x80) == 0x80 && braille_dots(0) == 0)
        by (bit_vector);
    let x = a as u32;
    let y = b as u32;
    let z = (a | b) as u32;
    assert(z == x | y) by (bit_vector)
        requires
            z == (a | b) as u32,
            x == a as u32,
            y == b as u32,
    ;
    assert(((z & 1) | (((z >> 1) & 1) << 3) | (((z >> 2) & 1) << 1) | (((z >> 3) & 1) << 4) | (((z
        >> 4) & 1) << 2) | (((z >> 5) & 1) << 5) | (((z >> 6) & 1) << 6) | (((z >> 7) & 1) << 7))
        == (((x & 1) | (((x >> 1) & 1) << 3) | (((x >> 2) & 1) << 1) | (((x >> 3) & 1) << 4) | (((x
        >> 4) & 1) << 2) | (((x >> 5) & 1) << 5) | (((x >> 6) & 1) << 6) | (((x >> 7) & 1) << 7))
        | ((y & 1) | (((y >> 1) & 1) << 3) | (((y >> 2) & 1) << 1) | (((y >> 3) & 1) << 4) | (((y
        >> 4) & 1) << 2) | (((y >> 5) & 1) << 5) | (((y >> 6) & 1) << 6) | (((y >> 7) & 1) << 7))))
        by (bit_vector)
        requires
            z == x | y,
    ;
    assert(((x & 1) | (((x >> 1) & 1) << 3) | (((x >> 2) & 1) << 1) | (((x >> 3) & 1) << 4) | (((x
        >> 4) & 1) << 2) | (((x >> 5) & 1) << 5) | (((x >> 6) & 1) << 6) | (((x >> 7) & 1) << 7))
        < 256) by (bit_vector);
}

} // verus!
