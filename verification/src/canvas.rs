//! The canvas: a fixed rectangle of styled character cells, and the only
//! thing that is ever rendered.

use vstd::prelude::*;
use vstd::string::StringExecFns;
use crate::raster::{clipped, lemma_line_len, line_len, Raster};
pub use crate::style::{Pixel, TextStyles};
use crate::style::{lemma_concat_assoc, reset_code};

verus! {

/// A rectangle of styled character cells. Its size is fixed when it is
/// made; writing changes cells in place.
pub struct Canvas {
    width: usize,
    height: usize,
    pixels: Vec<Pixel>,
}

/// The rectangle that a row-major sequence of cells stands for.
pub closed spec fn raster_of(pixels: Seq<Pixel>, width: nat, height: nat) -> Raster {
    Raster {
        width,
        height,
        rows: Seq::new(height, |y: int| Seq::new(width, |x: int| pixels[y * width + x])),
    }
}

/// Where cell (`x`, `y`) stands in the row-major sequence, and that no
/// other cell stands there.
proof fn lemma_cell_index(x: int, y: int, w: int, h: int)
    requires
        0 <= x < w,
        0 <= y < h,
    ensures
        0 <= y * w <= y * w + x < w * h,
        (y * w + x) / w == y,
        (y * w + x) % w == x,
{
    assert(y * w + x < w * h) by (nonlinear_arith)
        requires
            0 <= x < w,
            0 <= y < h,
    ;
    assert(0 <= y * w) by (nonlinear_arith)
        requires
            0 <= x < w,
            0 <= y < h,
    ;
    vstd::arithmetic::div_mod::lemma_fundamental_div_mod_converse(y * w + x, w, y, x);
}

/// Replacing one element of the row-major sequence replaces one cell of
/// the rectangle.
proof fn lemma_update(pixels: Seq<Pixel>, w: nat, h: nat, x: int, y: int, p: Pixel)
    requires
        pixels.len() == w * h,
        0 <= x < w,
        0 <= y < h,
    ensures
        raster_of(pixels.update(y * w + x, p), w, h) == raster_of(pixels, w, h).with_cell(x, y, p),
{
    let before = raster_of(pixels, w, h);
    let after = raster_of(pixels.update(y * w + x, p), w, h);
    let want = before.with_cell(x, y, p);
    lemma_cell_index(x, y, w as int, h as int);
    assert forall|c: int, r: int| after.holds(c, r) implies after.at(c, r) == want.at(c, r) by {
        lemma_cell_index(c, r, w as int, h as int);
        if r * w + c == y * w + x {
            assert(r == y && c == x);
        }
    }
    after.lemma_same(want);
}

impl View for Canvas {
    type V = Raster;

    closed spec fn view(&self) -> Raster {
        raster_of(self.pixels@, self.width as nat, self.height as nat)
    }
}

impl Canvas {
    #[verifier::type_invariant]
    spec fn inv(self) -> bool {
        self.pixels.len() == self.width * self.height
    }

    /// What a canvas holds is always a well-formed rectangle, and neither
    /// side of it is longer than a machine can count.
    pub proof fn lemma_view_wf(&self)
        ensures
            self@.wf(),
            self@.width <= usize::MAX,
            self@.height <= usize::MAX,
    {
    }

    /// A canvas of `width` by `height` cells, each holding `filler` and no
    /// style marks.
    pub fn new(width: usize, height: usize, filler: char) -> (r: Canvas)
        requires
            width * height <= usize::MAX,
        ensures
            r@ == Raster::filled(width as nat, height as nat, filler),
    {
        let count: usize = width * height;
        let mut pixels: Vec<Pixel> = Vec::new();
        let _ = pixels.try_reserve(count);
        let mut i: usize = 0;
        while i < count
            invariant
                i <= count,
                pixels.len() == i,
                forall|j: int| 0 <= j < i ==> pixels@[j] == (Pixel { ch: filler, flags: 0 }),
            decreases count - i,
        {
            pixels.push(Pixel { ch: filler, flags: 0 });
            i += 1;
        }
        let r = Canvas { width, height, pixels };
        proof {
            let want = Raster::filled(width as nat, height as nat, filler);
            assert forall|x: int, y: int| r@.holds(x, y) implies r@.at(x, y) == want.at(x, y) by {
                lemma_cell_index(x, y, width as int, height as int);
            }
            r@.lemma_same(want);
        }
        r
    }

    /// The number of columns.
    pub fn width(&self) -> (w: usize)
        ensures
            w == self@.width,
    {
        self.width
    }

    /// The number of rows.
    pub fn height(&self) -> (h: usize)
        ensures
            h == self@.height,
    {
        self.height
    }

    /// The cell in column `x` of row `y`, if there is one.
    pub fn get(&self, x: usize, y: usize) -> (r: Option<&Pixel>)
        ensures
            self@.holds(x as int, y as int) ==> r == Some(&self@.at(x as int, y as int)),
            !self@.holds(x as int, y as int) ==> r is None,
    {
        if x < self.width && y < self.height {
            Some(self.get_unchecked(x, y))
        } else {
            None
        }
    }

    /// The cell in column `x` of row `y`, if there is one, to be changed in
    /// place.
    pub fn get_mut(&mut self, x: usize, y: usize) -> (r: Option<&mut Pixel>)
        ensures
            match r {
                Some(p) => {
                    &&& old(self)@.holds(x as int, y as int)
                    &&& *p == old(self)@.at(x as int, y as int)
                    &&& final(self)@ == old(self)@.with_cell(x as int, y as int, *final(p))
                },
                None => {
                    &&& !old(self)@.holds(x as int, y as int)
                    &&& final(self)@ == old(self)@
                },
            },
    {
        if x < self.width && y < self.height {
            Some(self.get_unchecked_mut(x, y))
        } else {
            None
        }
    }

    /// The cell in column `x` of row `y` of a canvas that has it.
    pub fn get_unchecked(&self, x: usize, y: usize) -> (r: &Pixel)
        requires
            self@.holds(x as int, y as int),
        ensures
            *r == self@.at(x as int, y as int),
    {
        proof {
            use_type_invariant(self);
            lemma_cell_index(x as int, y as int, self.width as int, self.height as int);
        }
        &self.pixels[y * self.width + x]
    }

    /// The cell in column `x` of row `y` of a canvas that has it, to be
    /// changed in place.
    pub fn get_unchecked_mut(&mut self, x: usize, y: usize) -> (r: &mut Pixel)
        requires
            old(self)@.holds(x as int, y as int),
        ensures
            *r == old(self)@.at(x as int, y as int),
            final(self)@ == old(self)@.with_cell(x as int, y as int, *final(r)),
    {
        proof {
            use_type_invariant(&*self);
            lemma_cell_index(x as int, y as int, self.width as int, self.height as int);
            assert forall|p: Pixel|
                #[trigger] raster_of(
                    self.pixels@.update(y * self.width + x, p),
                    self.width as nat,
                    self.height as nat,
                ) == self@.with_cell(x as int, y as int, p) by {
                lemma_update(
                    self.pixels@,
                    self.width as nat,
                    self.height as nat,
                    x as int,
                    y as int,
                    p,
                );
            }
        }
        &mut self.pixels[y * self.width + x]
    }

    /// Replaces the cell in column `x` of row `y`.
    fn put(&mut self, x: usize, y: usize, p: Pixel)
        requires
            old(self)@.holds(x as int, y as int),
        ensures
            final(self)@ == old(self)@.with_cell(x as int, y as int, p),
    {
        let cell = self.get_unchecked_mut(x, y);
        *cell = p;
    }

    /// Writes `text` at (`x`, `y`) in the given styles.
    ///
    /// A line break takes the writing back to column `x`, one row further
    /// down. What would fall at or beyond the right edge is dropped up to
    /// the next line break; what would fall below the bottom edge is
    /// dropped altogether. On each row the first cell written takes the
    /// styles' start marks and the last cell written their stop marks.
    /// Text that starts outside the canvas changes nothing.
    pub fn text(&mut self, text: &str, x: usize, y: usize, styles: TextStyles)
        ensures
            final(self)@ == old(self)@.with_text(text@, x as int, y as int, styles),
    {
        let ghost whole = text@;
        let ghost goal = self@.with_text(whole, x as int, y as int, styles);
        if x >= self.width || y >= self.height {
            proof {
                self@.lemma_text_outside(whole, 0, x as int, y as int, styles);
            }
            return ;
        }
        let width: usize = self.width;
        let height: usize = self.height;
        let mut row: usize = y;
        let mut col: usize = x;
        let ghost mut start: int = 0;
        let ghost mut base: Raster = self@;
        proof {
            base.lemma_run_outside(x as int, row as int, whole.subrange(0, 0), styles, false);
        }
        for letter in it: text.chars()
            invariant
                it.seq() == whole,
                goal == old(self)@.with_text(text@, x as int, y as int, styles),
                self.width == width,
                self.height == height,
                x < width,
                x <= col <= width,
                row < height,
                0 <= start <= it.index() <= whole.len(),
                forall|j: int| start <= j < it.index() ==> whole[j] != '\n',
                col - x == clipped(it.index() - start, x as int, width as int),
                base.wf(),
                base.width == width,
                base.height == height,
                self@ == base.laid(
                    x as int,
                    row as int,
                    whole.subrange(start, it.index()),
                    styles,
                    false,
                ),
                base.with_text_from(whole, start, x as int, row as int, styles) == goal,
        {
            let ghost i = it.index();
            let ghost run = whole.subrange(start, i);
            if letter == '\n' {
                self.close_run(x, col, row, styles, Ghost(base), Ghost(run));
                proof {
                    lemma_line_len(whole, start, i);
                    assert(whole.subrange(start, start + line_len(whole, start)) == run);
                    start = i + 1;
                    base = self@;
                    self.lemma_view_wf();
                }
                if row + 1 >= height {
                    proof {
                        base.lemma_text_outside(whole, start, x as int, row + 1, styles);
                    }
                    return ;
                }
                row = row + 1;
                col = x;
                proof {
                    base.lemma_run_outside(
                        x as int,
                        row as int,
                        whole.subrange(start, start),
                        styles,
                        false,
                    );
                }
            } else if col < width {
                let was = *self.get_unchecked(col, row);
                let flags: u8 = if col == x {
                    was.flags | styles.raw_on_bits()
                } else {
                    was.flags
                };
                let ghost prev = self@;
                let cell = Pixel { ch: letter, flags };
                self.put(col, row, cell);
                proof {
                    let longer = whole.subrange(start, i + 1);
                    let want = base.laid(x as int, row as int, longer, styles, false);
                    base.lemma_laid(x as int, row as int, run, styles, false);
                    base.lemma_laid(x as int, row as int, longer, styles, false);
                    prev.lemma_with_cell(col as int, row as int, cell);
                    assert forall|c: int, r: int| want.holds(c, r) implies self@.at(c, r)
                        == want.at(c, r) by {
                        assert(want.at(c, r) == base.run_cell(
                            c,
                            r,
                            x as int,
                            row as int,
                            longer,
                            styles,
                            false,
                        ));
                        assert(prev.at(c, r) == base.run_cell(
                            c,
                            r,
                            x as int,
                            row as int,
                            run,
                            styles,
                            false,
                        ));
                    }
                    self.lemma_view_wf();
                    self@.lemma_same(want);
                }
                col = col + 1;
            } else {
                proof {
                    let longer = whole.subrange(start, i + 1);
                    let want = base.laid(x as int, row as int, longer, styles, false);
                    base.lemma_laid(x as int, row as int, run, styles, false);
                    base.lemma_laid(x as int, row as int, longer, styles, false);
                    assert forall|c: int, r: int| want.holds(c, r) implies self@.at(c, r)
                        == want.at(c, r) by {
                        assert(want.at(c, r) == base.run_cell(
                            c,
                            r,
                            x as int,
                            row as int,
                            longer,
                            styles,
                            false,
                        ));
                    }
                    self.lemma_view_wf();
                    self@.lemma_same(want);
                }
            }
        }
        let ghost run = whole.subrange(start, whole.len() as int);
        self.close_run(x, col, row, styles, Ghost(base), Ghost(run));
        proof {
            lemma_line_len(whole, start, whole.len() as int);
            assert(whole.subrange(start, start + line_len(whole, start)) == run);
        }
    }

    /// Ends the run that was written on row `y` from column `x` up to, but
    /// not including, column `end`: its last cell takes the stop marks.
    fn close_run(
        &mut self,
        x: usize,
        end: usize,
        y: usize,
        styles: TextStyles,
        Ghost(base): Ghost<Raster>,
        Ghost(run): Ghost<Seq<char>>,
    )
        requires
            base.wf(),
            base.width == old(self)@.width,
            base.height == old(self)@.height,
            base.holds(x as int, y as int),
            end - x == clipped(run.len() as int, x as int, base.width as int),
            old(self)@ == base.laid(x as int, y as int, run, styles, false),
        ensures
            final(self)@ == base.with_run(x as int, y as int, run, styles),
    {
        let ghost want = base.with_run(x as int, y as int, run, styles);
        proof {
            base.lemma_laid(x as int, y as int, run, styles, false);
            base.lemma_laid(x as int, y as int, run, styles, true);
            self.lemma_view_wf();
        }
        if end > x {
            let last: usize = end - 1;
            let was = *self.get_unchecked(last, y);
            self.put(last, y, Pixel { ch: was.ch, flags: was.flags | styles.raw_off_bits() });
            proof {
                self.lemma_view_wf();
            }
        }
        proof {
            assert forall|c: int, r: int| want.holds(c, r) implies self@.at(c, r) == want.at(
                c,
                r,
            ) by {
                assert(want.at(c, r) == base.run_cell(c, r, x as int, y as int, run, styles, true));
            }
            self@.lemma_same(want);
        }
    }

    /// Writes `len` copies of `fill` on row `y` from column `x`, in the
    /// given styles.
    ///
    /// What would fall at or beyond the right edge is dropped. The first
    /// cell written takes the styles' start marks and the last cell written
    /// their stop marks. A line that starts outside the canvas, or has no
    /// length, changes nothing.
    pub fn line(&mut self, fill: char, x: usize, y: usize, len: usize, styles: TextStyles)
        ensures
            final(self)@ == old(self)@.with_line(fill, x as int, y as int, len as nat, styles),
    {
        let ghost base = self@;
        let ghost run = Seq::new(len as nat, |i: int| fill);
        proof {
            self.lemma_view_wf();
        }
        if x >= self.width || y >= self.height || len == 0 {
            proof {
                base.lemma_run_outside(x as int, y as int, run, styles, true);
            }
            return ;
        }
        let width: usize = self.width;
        let count: usize = if len >= width - x {
            width - x
        } else {
            len
        };
        let mut col: usize = x;
        proof {
            base.lemma_run_outside(x as int, y as int, Seq::new(0, |i: int| fill), styles, false);
        }
        while col - x < count
            invariant
                self.width == width,
                base.wf(),
                base.width == width,
                base.holds(x as int, y as int),
                count == clipped(len as int, x as int, width as int),
                x <= col <= x + count,
                self@ == base.laid(
                    x as int,
                    y as int,
                    Seq::new((col - x) as nat, |i: int| fill),
                    styles,
                    false,
                ),
            decreases x + count - col,
        {
            let ghost prev = self@;
            let ghost shorter = Seq::new((col - x) as nat, |i: int| fill);
            let ghost longer = Seq::new((col + 1 - x) as nat, |i: int| fill);
            let was = *self.get_unchecked(col, y);
            let flags: u8 = if col == x {
                was.flags | styles.raw_on_bits()
            } else {
                was.flags
            };
            let cell = Pixel { ch: fill, flags };
            self.put(col, y, cell);
            proof {
                let want = base.laid(x as int, y as int, longer, styles, false);
                base.lemma_laid(x as int, y as int, shorter, styles, false);
                base.lemma_laid(x as int, y as int, longer, styles, false);
                prev.lemma_with_cell(col as int, y as int, cell);
                assert forall|c: int, r: int| want.holds(c, r) implies self@.at(c, r) == want.at(
                    c,
                    r,
                ) by {
                    assert(want.at(c, r) == base.run_cell(
                        c,
                        r,
                        x as int,
                        y as int,
                        longer,
                        styles,
                        false,
                    ));
                    assert(prev.at(c, r) == base.run_cell(
                        c,
                        r,
                        x as int,
                        y as int,
                        shorter,
                        styles,
                        false,
                    ));
                }
                self.lemma_view_wf();
                self@.lemma_same(want);
            }
            col = col + 1;
        }
        proof {
            let written = Seq::new(count as nat, |i: int| fill);
            let want = base.laid(x as int, y as int, run, styles, false);
            base.lemma_laid(x as int, y as int, written, styles, false);
            base.lemma_laid(x as int, y as int, run, styles, false);
            assert forall|c: int, r: int| want.holds(c, r) implies self@.at(c, r) == want.at(
                c,
                r,
            ) by {
                assert(want.at(c, r) == base.run_cell(c, r, x as int, y as int, run, styles, false));
                assert(self@.at(c, r) == base.run_cell(
                    c,
                    r,
                    x as int,
                    y as int,
                    written,
                    styles,
                    false,
                ));
            }
            self.lemma_view_wf();
            self@.lemma_same(want);
        }
        self.close_run(x, col, y, styles, Ghost(base), Ghost(run));
    }

    /// The canvas as text for a terminal: row after row, each cell as
    /// [`Pixel::rendered`] gives it, and after each row the code that
    /// stops every style and a line break.
    pub fn render(&self) -> (r: String)
        ensures
            r@ == self@.rendered(),
    {
        let mut out = String::new();
        let mut y: usize = 0;
        assert(out@ =~= self@.rows_rendered(0));
        while y < self.height
            invariant
                y <= self.height,
                out@ == self@.rows_rendered(y as int),
            decreases self.height - y,
        {
            let ghost done = out@;
            let mut x: usize = 0;
            assert(out@ =~= done + self@.cells_rendered(y as int, 0));
            while x < self.width
                invariant
                    y < self.height,
                    x <= self.width,
                    out@ == done + self@.cells_rendered(y as int, x as int),
                decreases self.width - x,
            {
                let cell = self.get_unchecked(x, y);
                cell.render_into(&mut out);
                proof {
                    lemma_concat_assoc(
                        done,
                        self@.cells_rendered(y as int, x as int),
                        cell.rendered(),
                    );
                }
                x = x + 1;
            }
            proof {
                reveal_strlit("\x1B[0m\n");
                assert("\x1B[0m\n"@ =~= reset_code() + seq!['\n']);
                lemma_concat_assoc(
                    done + self@.cells_rendered(y as int, self.width as int),
                    reset_code(),
                    seq!['\n'],
                );
            }
            out.append("\x1B[0m\n");
            y = y + 1;
        }
        out
    }
}

} // verus!
