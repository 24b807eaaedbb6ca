//! The mathematical model of a canvas: a rectangle of cells, and what
//! writing to it means.
//!
//! Nothing here runs. A [`Raster`] is what a canvas holds at one moment;
//! the `with_*` functions say what it holds after a write, and the lemmas
//! say what follows from that. All writing comes down to one rule,
//! [`Raster::with_run`]: a run of characters is laid out on one row from a
//! starting column, cut off at the right edge, and the cells at its two
//! ends take the style marks.

use vstd::prelude::*;
use crate::style::{reset_code, Pixel, TextStyles};

verus! {

/// A rectangle of cells, `height` rows of `width` cells each.
pub struct Raster {
    pub width: nat,
    pub height: nat,
    pub rows: Seq<Seq<Pixel>>,
}

/// How many cells of a run of `len` characters that starts in column `x`
/// fit on a row of `width` cells.
pub open spec fn clipped(len: int, x: int, width: int) -> int {
    if x < 0 || x >= width || len <= 0 {
        0
    } else if len <= width - x {
        len
    } else {
        width - x
    }
}

/// The flags of a cell after a run has passed over it: the styles start
/// here if the cell is the run's first, and stop here if it is its last.
pub open spec fn edge_flags(flags: u8, first: bool, last: bool, styles: TextStyles) -> u8 {
    let opened = if first {
        flags | styles.on_bits()
    } else {
        flags
    };
    if last {
        opened | styles.off_bits()
    } else {
        opened
    }
}

/// How many characters stand in `text` from position `from` up to the next
/// line break, or up to the end where none follows.
pub open spec fn line_len(text: Seq<char>, from: int) -> nat
    decreases text.len() - from,
{
    if from < 0 || from >= text.len() || text[from] == '\n' {
        0
    } else {
        1 + line_len(text, from + 1)
    }
}

/// The line of `text` that starts at position `from`, without its line
/// break.
pub open spec fn line_at(text: Seq<char>, from: int) -> Seq<char> {
    text.subrange(from, from + line_len(text, from))
}

/// Where line `k` starts, counting from the line that starts at position
/// `from`, which is line 0. Each line starts behind the line break of the
/// line before it. Where the text has no line `k`, the result lies beyond
/// the end of the text.
pub open spec fn line_start(text: Seq<char>, from: int, k: int) -> int
    decreases k,
{
    if k <= 0 {
        from
    } else {
        line_start(text, from + line_len(text, from) + 1, k - 1)
    }
}

/// A line of exactly `length` characters: those of `text`, as far as they
/// go, then `pad`.
pub open spec fn padded(text: Seq<char>, length: nat, pad: char) -> Seq<char> {
    Seq::new(
        length,
        |i: int|
            if i < text.len() {
                text[i]
            } else {
                pad
            },
    )
}

impl Raster {
    /// Every row is there and has the full width.
    pub open spec fn wf(self) -> bool {
        &&& self.rows.len() == self.height
        &&& forall|y: int| 0 <= y < self.height ==> (#[trigger] self.rows[y]).len() == self.width
    }

    /// Whether column `x` of row `y` is a cell of the rectangle.
    pub open spec fn holds(self, x: int, y: int) -> bool {
        0 <= x < self.width && 0 <= y < self.height
    }

    /// The cell in column `x` of row `y`.
    pub open spec fn at(self, x: int, y: int) -> Pixel {
        self.rows[y][x]
    }

    /// A rectangle of the given size with `filler` in every cell and no
    /// style marks.
    pub open spec fn filled(width: nat, height: nat, filler: char) -> Raster {
        Raster {
            width,
            height,
            rows: Seq::new(
                height,
                |y: int| Seq::new(width, |x: int| Pixel { ch: filler, flags: 0 }),
            ),
        }
    }

    /// The same rectangle with cell (`x`, `y`) replaced by `p`.
    pub open spec fn with_cell(self, x: int, y: int, p: Pixel) -> Raster {
        Raster {
            width: self.width,
            height: self.height,
            rows: Seq::new(
                self.height,
                |r: int|
                    Seq::new(
                        self.width,
                        |c: int|
                            if c == x && r == y {
                                p
                            } else {
                                self.at(c, r)
                            },
                    ),
            ),
        }
    }

    /// The cell (`c`, `r`) after `run` has been laid out on row `y` from
    /// column `x`, as far as it fits. The first cell takes the styles'
    /// start marks. Once the run is `closed`, the last cell that was
    /// written takes their stop marks. A cell that the run does not reach
    /// is as it was.
    pub open spec fn run_cell(
        self,
        c: int,
        r: int,
        x: int,
        y: int,
        run: Seq<char>,
        styles: TextStyles,
        closed: bool,
    ) -> Pixel {
        let n = clipped(run.len() as int, x, self.width as int);
        if r == y && x <= c < x + n {
            Pixel {
                ch: run[c - x],
                flags: edge_flags(self.at(c, r).flags, c == x, closed && c == x + n - 1, styles),
            }
        } else {
            self.at(c, r)
        }
    }

    /// The rectangle after `run` has been laid out on row `y` from column
    /// `x`, with or without the stop marks (see [`Raster::run_cell`]).
    pub open spec fn laid(
        self,
        x: int,
        y: int,
        run: Seq<char>,
        styles: TextStyles,
        closed: bool,
    ) -> Raster {
        Raster {
            width: self.width,
            height: self.height,
            rows: Seq::new(
                self.height,
                |r: int|
                    Seq::new(self.width, |c: int| self.run_cell(c, r, x, y, run, styles, closed)),
            ),
        }
    }

    /// The rectangle after the run of characters `run` has been written on
    /// row `y` from column `x`.
    ///
    /// Characters that would fall at or beyond the right edge are dropped.
    /// The first cell written takes the start marks of `styles`, the last
    /// cell written their stop marks, both on top of the marks it has. A
    /// run that starts outside the rectangle, or is empty, writes nothing.
    pub open spec fn with_run(self, x: int, y: int, run: Seq<char>, styles: TextStyles) -> Raster {
        self.laid(x, y, run, styles, true)
    }

    /// The rectangle after `length` copies of `fill` have been written on
    /// row `y` from column `x`, by the rule of [`Raster::with_run`].
    pub open spec fn with_line(
        self,
        fill: char,
        x: int,
        y: int,
        length: nat,
        styles: TextStyles,
    ) -> Raster {
        self.with_run(x, y, Seq::new(length, |i: int| fill), styles)
    }

    /// The rectangle after the part of `text` from position `from` on has
    /// been written at (`x`, `y`): its first line as a run on row `y`, and
    /// what follows the line break in the same way one row further down.
    pub open spec fn with_text_from(
        self,
        text: Seq<char>,
        from: int,
        x: int,
        y: int,
        styles: TextStyles,
    ) -> Raster
        decreases text.len() - from,
    {
        let n = line_len(text, from);
        let next = self.with_run(x, y, line_at(text, from), styles);
        if from < 0 || from + n >= text.len() {
            next
        } else {
            next.with_text_from(text, from + n + 1, x, y + 1, styles)
        }
    }

    /// The rectangle after `text` has been written at (`x`, `y`).
    ///
    /// Each line of the text is a run of its own, by the rule of
    /// [`Raster::with_run`]: line `k` goes to row `y + k` and starts in
    /// column `x`. Lines that fall below the bottom edge write nothing.
    pub open spec fn with_text(self, text: Seq<char>, x: int, y: int, styles: TextStyles) -> Raster {
        self.with_text_from(text, 0, x, y, styles)
    }

    /// The first `upto` cells of row `y` as text for a terminal, one after
    /// the other, each as [`Pixel::rendered`] gives it.
    pub open spec fn cells_rendered(self, y: int, upto: int) -> Seq<char>
        decreases upto,
    {
        if upto <= 0 {
            Seq::empty()
        } else {
            self.cells_rendered(y, upto - 1) + self.at(upto - 1, y).rendered()
        }
    }

    /// The first `upto` rows as text for a terminal: the cells of each row,
    /// then the code that stops every style, then a line break.
    pub open spec fn rows_rendered(self, upto: int) -> Seq<char>
        decreases upto,
    {
        if upto <= 0 {
            Seq::empty()
        } else {
            self.rows_rendered(upto - 1) + self.cells_rendered(upto - 1, self.width as int)
                + reset_code() + seq!['\n']
        }
    }

    /// The whole rectangle as text for a terminal.
    pub open spec fn rendered(self) -> Seq<char> {
        self.rows_rendered(self.height as int)
    }

    /// Two rectangles of one size that agree in every cell are the same.
    pub proof fn lemma_same(self, other: Raster)
        requires
            self.wf(),
            other.wf(),
            self.width == other.width,
            self.height == other.height,
            forall|x: int, y: int| self.holds(x, y) ==> self.at(x, y) == other.at(x, y),
        ensures
            self == other,
    {
        assert forall|y: int| 0 <= y < self.height implies self.rows[y] == other.rows[y] by {
            assert forall|x: int| 0 <= x < self.width implies self.rows[y][x] == other.rows[y][x] by {
                assert(self.holds(x, y));
                assert(self.at(x, y) == other.at(x, y));
            }
            assert(self.rows[y] =~= other.rows[y]);
        }
        assert(self.rows =~= other.rows);
    }

    /// Laying out a run keeps the size, and what it leaves in each cell is
    /// what [`Raster::run_cell`] says.
    pub proof fn lemma_laid(self, x: int, y: int, run: Seq<char>, styles: TextStyles, closed: bool)
        ensures
            self.laid(x, y, run, styles, closed).wf(),
            self.laid(x, y, run, styles, closed).width == self.width,
            self.laid(x, y, run, styles, closed).height == self.height,
            forall|c: int, r: int|
                self.holds(c, r) ==> #[trigger] self.laid(x, y, run, styles, closed).at(c, r)
                    == self.run_cell(c, r, x, y, run, styles, closed),
    {
    }

    /// A run that does not start on a cell of the rectangle, or that is
    /// empty, changes nothing.
    pub proof fn lemma_run_outside(
        self,
        x: int,
        y: int,
        run: Seq<char>,
        styles: TextStyles,
        closed: bool,
    )
        requires
            self.wf(),
            !self.holds(x, y) || run.len() == 0,
        ensures
            self.laid(x, y, run, styles, closed) == self,
    {
        let after = self.laid(x, y, run, styles, closed);
        self.lemma_laid(x, y, run, styles, closed);
        assert forall|c: int, r: int| self.holds(c, r) implies after.at(c, r) == self.at(c, r) by {
            assert(after.at(c, r) == self.run_cell(c, r, x, y, run, styles, closed));
        }
        after.lemma_same(self);
    }

    /// Replacing a cell keeps the size, puts the new cell in its place and
    /// leaves every other cell as it was.
    pub proof fn lemma_with_cell(self, x: int, y: int, p: Pixel)
        ensures
            self.with_cell(x, y, p).wf(),
            self.with_cell(x, y, p).width == self.width,
            self.with_cell(x, y, p).height == self.height,
            forall|c: int, r: int|
                self.holds(c, r) ==> #[trigger] self.with_cell(x, y, p).at(c, r) == (if c == x && r
                    == y {
                    p
                } else {
                    self.at(c, r)
                }),
    {
    }

    /// Writing text keeps the rectangle well formed and of the same size.
    pub proof fn lemma_text_keeps_size(
        self,
        text: Seq<char>,
        from: int,
        x: int,
        y: int,
        styles: TextStyles,
    )
        ensures
            self.with_text_from(text, from, x, y, styles).wf(),
            self.with_text_from(text, from, x, y, styles).width == self.width,
            self.with_text_from(text, from, x, y, styles).height == self.height,
        decreases text.len() - from,
    {
        let n = line_len(text, from);
        let next = self.with_run(x, y, text.subrange(from, from + n), styles);
        self.lemma_laid(x, y, text.subrange(from, from + n), styles, true);
        if from < 0 || from + n >= text.len() {
        } else {
            next.lemma_text_keeps_size(text, from + n + 1, x, y + 1, styles);
        }
    }

    /// Text whose place lies outside the rectangle, to the right of it or
    /// below it, changes nothing.
    pub proof fn lemma_text_outside(
        self,
        text: Seq<char>,
        from: int,
        x: int,
        y: int,
        styles: TextStyles,
    )
        requires
            self.wf(),
            x < 0 || x >= self.width || y >= self.height,
        ensures
            self.with_text_from(text, from, x, y, styles) == self,
        decreases text.len() - from,
    {
        let n = line_len(text, from);
        let run = text.subrange(from, from + n);
        let next = self.with_run(x, y, run, styles);
        self.lemma_laid(x, y, run, styles, true);
        assert forall|c: int, r: int| self.holds(c, r) implies next.at(c, r) == self.at(c, r) by {
            assert(next.at(c, r) == self.run_cell(c, r, x, y, run, styles, true));
        }
        next.lemma_same(self);
        if from < 0 || from + n >= text.len() {
        } else {
            self.lemma_text_outside(text, from + n + 1, x, y + 1, styles);
        }
    }
    /// Writing one more character of a run that is still open is the same
    /// as replacing the next cell: by the character, with the start marks
    /// if the cell is the run's first.
    pub proof fn lemma_extend_run(self, x: int, y: int, run: Seq<char>, k: int, styles: TextStyles)
        requires
            self.wf(),
            self.holds(x, y),
            0 <= k < run.len(),
            x + k < self.width,
        ensures
            self.laid(x, y, run.take(k), styles, false).at(x + k, y) == self.at(x + k, y),
            self.laid(x, y, run.take(k), styles, false).with_cell(
                x + k,
                y,
                Pixel {
                    ch: run[k],
                    flags: edge_flags(self.at(x + k, y).flags, k == 0, false, styles),
                },
            ) == self.laid(x, y, run.take(k + 1), styles, false),
    {
        let shorter = run.take(k);
        let longer = run.take(k + 1);
        let prev = self.laid(x, y, shorter, styles, false);
        let cell = Pixel {
            ch: run[k],
            flags: edge_flags(self.at(x + k, y).flags, k == 0, false, styles),
        };
        let got = prev.with_cell(x + k, y, cell);
        let want = self.laid(x, y, longer, styles, false);
        self.lemma_laid(x, y, shorter, styles, false);
        self.lemma_laid(x, y, longer, styles, false);
        prev.lemma_with_cell(x + k, y, cell);
        assert(prev.at(x + k, y) == self.run_cell(x + k, y, x, y, shorter, styles, false));
        assert forall|c: int, r: int| want.holds(c, r) implies got.at(c, r) == want.at(c, r) by {
            assert(want.at(c, r) == self.run_cell(c, r, x, y, longer, styles, false));
            assert(prev.at(c, r) == self.run_cell(c, r, x, y, shorter, styles, false));
        }
        got.lemma_same(want);
    }

    /// Of a run only the part that fits on the row counts.
    pub proof fn lemma_laid_clipped(
        self,
        x: int,
        y: int,
        run: Seq<char>,
        styles: TextStyles,
        closed: bool,
    )
        requires
            self.wf(),
        ensures
            self.laid(
                x,
                y,
                run.take(clipped(run.len() as int, x, self.width as int)),
                styles,
                closed,
            ) == self.laid(x, y, run, styles, closed),
    {
        let part = run.take(clipped(run.len() as int, x, self.width as int));
        let got = self.laid(x, y, part, styles, closed);
        let want = self.laid(x, y, run, styles, closed);
        self.lemma_laid(x, y, part, styles, closed);
        self.lemma_laid(x, y, run, styles, closed);
        assert forall|c: int, r: int| want.holds(c, r) implies got.at(c, r) == want.at(c, r) by {
            assert(want.at(c, r) == self.run_cell(c, r, x, y, run, styles, closed));
            assert(got.at(c, r) == self.run_cell(c, r, x, y, part, styles, closed));
        }
        got.lemma_same(want);
    }

    /// A run that is still open is ended by giving its last cell the stop
    /// marks; a run of which nothing was written needs no ending.
    pub proof fn lemma_close_run(self, x: int, y: int, run: Seq<char>, styles: TextStyles)
        requires
            self.wf(),
        ensures
            clipped(run.len() as int, x, self.width as int) == 0 || !(0 <= y < self.height)
                ==> self.laid(x, y, run, styles, false) == self.with_run(x, y, run, styles),
            clipped(run.len() as int, x, self.width as int) > 0 && 0 <= y < self.height ==> ({
                let open = self.laid(x, y, run, styles, false);
                let last = x + clipped(run.len() as int, x, self.width as int) - 1;
                open.with_cell(
                    last,
                    y,
                    Pixel {
                        ch: open.at(last, y).ch,
                        flags: open.at(last, y).flags | styles.off_bits(),
                    },
                ) == self.with_run(x, y, run, styles)
            }),
    {
        let n = clipped(run.len() as int, x, self.width as int);
        let open = self.laid(x, y, run, styles, false);
        let want = self.with_run(x, y, run, styles);
        self.lemma_laid(x, y, run, styles, false);
        self.lemma_laid(x, y, run, styles, true);
        if n > 0 && 0 <= y < self.height {
            let last = x + n - 1;
            let cell = Pixel {
                ch: open.at(last, y).ch,
                flags: open.at(last, y).flags | styles.off_bits(),
            };
            let got = open.with_cell(last, y, cell);
            open.lemma_with_cell(last, y, cell);
            assert(open.at(last, y) == self.run_cell(last, y, x, y, run, styles, false));
            assert forall|c: int, r: int| want.holds(c, r) implies got.at(c, r) == want.at(c, r) by {
                assert(want.at(c, r) == self.run_cell(c, r, x, y, run, styles, true));
                assert(open.at(c, r) == self.run_cell(c, r, x, y, run, styles, false));
            }
            got.lemma_same(want);
        } else {
            assert forall|c: int, r: int| want.holds(c, r) implies open.at(c, r) == want.at(c, r) by {
                assert(want.at(c, r) == self.run_cell(c, r, x, y, run, styles, true));
                assert(open.at(c, r) == self.run_cell(c, r, x, y, run, styles, false));
            }
            open.lemma_same(want);
        }
    }

    /// What writing text leaves in each cell.
    ///
    /// Row `y + k` takes line `k` of the text, as a run from column `x`,
    /// if the text has such a line. Every other row stays as it was.
    pub proof fn lemma_text_cell(
        self,
        text: Seq<char>,
        from: int,
        x: int,
        y: int,
        styles: TextStyles,
        c: int,
        r: int,
    )
        requires
            self.wf(),
            0 <= from <= text.len(),
            self.holds(c, r),
        ensures
            self.with_text_from(text, from, x, y, styles).at(c, r) == (if r >= y && line_start(
                text,
                from,
                r - y,
            ) <= text.len() {
                self.run_cell(
                    c,
                    r,
                    x,
                    r,
                    line_at(text, line_start(text, from, r - y)),
                    styles,
                    true,
                )
            } else {
                self.at(c, r)
            }),
        decreases text.len() - from,
    {
        let n = line_len(text, from);
        let next = self.with_run(x, y, line_at(text, from), styles);
        self.lemma_laid(x, y, line_at(text, from), styles, true);
        assert(next.at(c, r) == self.run_cell(c, r, x, y, line_at(text, from), styles, true));
        if from + n >= text.len() {
            if r > y {
                lemma_line_start_grows(text, from + n + 1, r - y - 1);
            }
        } else {
            next.lemma_text_cell(text, from + n + 1, x, y + 1, styles, c, r);
        }
    }

    /// Text that fits is written as it stands: where every character of
    /// line `k` has a cell on row `y + k`, character `j` of the line is in
    /// column `x + j`, the first cell of the line has taken the start marks
    /// and the last one the stop marks, and no cell between them has taken
    /// any.
    pub proof fn lemma_text_inside(
        self,
        text: Seq<char>,
        x: int,
        y: int,
        styles: TextStyles,
        k: int,
        j: int,
    )
        requires
            self.wf(),
            0 <= x,
            0 <= y,
            0 <= k,
            y + k < self.height,
            line_start(text, 0, k) <= text.len(),
            0 <= j < line_len(text, line_start(text, 0, k)),
            x + line_len(text, line_start(text, 0, k)) <= self.width,
        ensures
            self.with_text(text, x, y, styles).at(x + j, y + k) == (Pixel {
                ch: text[line_start(text, 0, k) + j],
                flags: edge_flags(
                    self.at(x + j, y + k).flags,
                    j == 0,
                    j == line_len(text, line_start(text, 0, k)) - 1,
                    styles,
                ),
            }),
    {
        self.lemma_text_cell(text, 0, x, y, styles, x + j, y + k);
        lemma_line_ends(text, line_start(text, 0, k));
    }

    /// Text that crosses the right edge loses what crosses it, and nothing
    /// else: every character of line `k` whose column lies on the canvas is
    /// in its cell on row `y + k`, whatever was dropped before it, on its
    /// own line or on a line above.
    pub proof fn lemma_text_clipped(
        self,
        text: Seq<char>,
        x: int,
        y: int,
        styles: TextStyles,
        k: int,
        j: int,
    )
        requires
            self.wf(),
            0 <= x,
            0 <= y,
            0 <= k,
            y + k < self.height,
            line_start(text, 0, k) <= text.len(),
            0 <= j < line_len(text, line_start(text, 0, k)),
            x + j < self.width,
        ensures
            self.with_text(text, x, y, styles).at(x + j, y + k).ch == text[line_start(text, 0, k)
                + j],
    {
        self.lemma_text_cell(text, 0, x, y, styles, x + j, y + k);
        lemma_line_ends(text, line_start(text, 0, k));
    }

    /// Writing text changes no cell but those that take a character: a
    /// cell above row `y`, below the last line, to the left of column `x`,
    /// or to the right of where its line ends, is as it was. What is
    /// dropped at the right edge shows up nowhere.
    pub proof fn lemma_text_elsewhere(
        self,
        text: Seq<char>,
        x: int,
        y: int,
        styles: TextStyles,
        c: int,
        r: int,
    )
        requires
            self.wf(),
            self.holds(c, r),
            r < y || line_start(text, 0, r - y) > text.len() || c < x || c >= x + line_len(
                text,
                line_start(text, 0, r - y),
            ),
        ensures
            self.with_text(text, x, y, styles).at(c, r) == self.at(c, r),
    {
        self.lemma_text_cell(text, 0, x, y, styles, c, r);
        if r >= y && line_start(text, 0, r - y) <= text.len() {
            lemma_line_start_grows(text, 0, r - y);
            lemma_line_ends(text, line_start(text, 0, r - y));
        }
    }
}

/// A stretch of text without a line break, followed by a break or by the
/// end of the text, is a whole line.
pub proof fn lemma_line_len(text: Seq<char>, from: int, to: int)
    requires
        0 <= from <= to <= text.len(),
        forall|i: int| from <= i < to ==> text[i] != '\n',
        to == text.len() || text[to] == '\n',
    ensures
        line_len(text, from) == to - from,
    decreases to - from,
{
    if from < to {
        lemma_line_len(text, from + 1, to);
    }
}

/// A line ends where the text ends, or before.
pub proof fn lemma_line_ends(text: Seq<char>, from: int)
    requires
        0 <= from <= text.len(),
    ensures
        from + line_len(text, from) <= text.len(),
        forall|i: int| from <= i < from + line_len(text, from) ==> text[i] != '\n',
        from + line_len(text, from) < text.len() ==> text[from + line_len(text, from)] == '\n',
    decreases text.len() - from,
{
    if from < text.len() && text[from] != '\n' {
        lemma_line_ends(text, from + 1);
    }
}

/// Line `k` starts at least `k` positions behind line 0.
pub proof fn lemma_line_start_grows(text: Seq<char>, from: int, k: int)
    requires
        0 <= k,
    ensures
        line_start(text, from, k) >= from + k,
    decreases k,
{
    if k > 0 {
        lemma_line_start_grows(text, from + line_len(text, from) + 1, k - 1);
    }
}

} // verus!
