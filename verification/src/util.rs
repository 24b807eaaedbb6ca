//! Widgets that are built on the widget contract alone: a decorator that
//! remembers whether anything happened since the last frame, and a window
//! onto a text that is longer than the window.

use vstd::prelude::*;
use crate::canvas::{Canvas, TextStyles};
use crate::element::{
    advanced, alerted, entered, responded, Direction, Edge, Element, Response, DOWN, UP,
};
use crate::grid::ElemHandle;
use crate::raster::{clipped, padded, Raster};
use std::marker::PhantomData;

verus! {

/// A widget together with the mark "changed since the last frame".
///
/// The widget inside is only drawn while the mark is set. Ending a frame
/// clears the mark. Anything that may have changed what the widget shows
/// sets it: a response other than "not recognised", the focus entering, an
/// alert.
pub struct Updater<'a, E> where E: Element<'a> {
    inner: E,
    updated: bool,
    _a: PhantomData<&'a ()>,
}

impl<'a, E> Updater<'a, E> where E: Element<'a> {
    /// The widget inside.
    pub closed spec fn inner(&self) -> E {
        self.inner
    }

    /// Whether the mark is set.
    pub closed spec fn is_dirty(&self) -> bool {
        self.updated
    }

    /// Wraps `elem`. The mark is set, so that the widget is drawn in the
    /// first frame.
    pub fn new(elem: E) -> (r: Updater<'a, E>)
        ensures
            r.inner() == elem,
            r.is_dirty(),
    {
        Updater { inner: elem, updated: true, _a: PhantomData }
    }

    /// Whether the mark is set.
    pub fn updated(&self) -> (r: bool)
        ensures
            r == self.is_dirty(),
    {
        self.updated
    }

    /// Takes note of the answer that the widget inside gave to an input:
    /// any answer but "not recognised" sets the mark. The answer is handed
    /// back as it is.
    pub fn note(&mut self, verdict: Response) -> (r: Response)
        ensures
            r == verdict,
            final(self).inner() == old(self).inner(),
            final(self).is_dirty() == (old(self).is_dirty() || !(verdict is Nothing)),
    {
        match verdict {
            Response::Nothing => Response::Nothing,
            r => {
                self.updated = true;
                r
            },
        }
    }

    /// While the mark is clear, drawing leaves the canvas as it is. While
    /// it is set, drawing is the drawing of the widget inside.
    pub proof fn lemma_drawn(&self, before: Raster, x: usize, y: usize, selected: bool)
        ensures
            !self.is_dirty() ==> self.drawn(before, x, y, selected) == before,
            self.is_dirty() ==> self.drawn(before, x, y, selected) == self.inner().drawn(
                before,
                x,
                y,
                selected,
            ),
    {
    }
}

impl<'a, E> Element<'a> for Updater<'a, E> where E: Element<'a> {
    /// The decorator is well formed if the widget inside is.
    open spec fn wf(&self) -> bool {
        self.inner().wf()
    }

    open spec fn drawn(&self, before: Raster, x: usize, y: usize, selected: bool) -> Raster {
        if self.is_dirty() {
            self.inner().drawn(before, x, y, selected)
        } else {
            before
        }
    }

    /// Draws the widget inside if the mark is set, and nothing otherwise.
    fn draw(&self, canvas: &mut Canvas, x: usize, y: usize, selected: bool) {
        if self.updated {
            self.inner.draw(canvas, x, y, selected)
        }
    }

    /// Ends the frame of the widget inside and clears the mark: until
    /// something sets it again, drawing leaves every canvas as it is.
    fn advance(&mut self)
        ensures
            exists|m: &mut E|
                #![trigger call_ensures(<E as Element<'a>>::advance, (m,), ())]
                {
                    &&& *m == old(self).inner()
                    &&& *final(m) == final(self).inner()
                    &&& advanced(m)
                },
            !final(self).is_dirty(),
            forall|before: Raster, x: usize, y: usize, selected: bool|
                #[trigger] final(self).drawn(before, x, y, selected) == before,
    {
        self.inner.advance();
        self.updated = false
    }

    /// Hands the input to the widget inside and hands its answer back:
    /// the answer is the one that the widget inside gave, and the widget
    /// inside is as its own `respond` left it. Any answer but "not
    /// recognised" sets the mark, so that drawing is the drawing of the
    /// widget inside again.
    fn respond(&mut self, input: char) -> (r: Response)
        ensures
            exists|m: &mut E|
                #![trigger call_ensures(<E as Element<'a>>::respond, (m, input), r)]
                {
                    &&& *m == old(self).inner()
                    &&& *final(m) == final(self).inner()
                    &&& responded(m, input, r)
                },
            r is Nothing ==> final(self).is_dirty() == old(self).is_dirty(),
            !(r is Nothing) ==> final(self).is_dirty(),
            !(r is Nothing) ==> forall|before: Raster, x: usize, y: usize, selected: bool|
                #[trigger] final(self).drawn(before, x, y, selected) == final(self).inner().drawn(
                    before,
                    x,
                    y,
                    selected,
                ),
    {
        let verdict = self.inner.respond(input);
        self.note(verdict)
    }

    /// Sets the mark and tells the widget inside, by the same hook.
    fn enter_top(&mut self)
        ensures
            final(self).is_dirty(),
            exists|m: &mut E|
                #![trigger call_ensures(<E as Element<'a>>::enter_top, (m,), ())]
                {
                    &&& *m == old(self).inner()
                    &&& *final(m) == final(self).inner()
                    &&& entered(m, Edge::Top)
                },
    {
        self.updated = true;
        self.inner.enter_top()
    }

    /// Sets the mark and tells the widget inside, by the same hook.
    fn enter_bottom(&mut self)
        ensures
            final(self).is_dirty(),
            exists|m: &mut E|
                #![trigger call_ensures(<E as Element<'a>>::enter_bottom, (m,), ())]
                {
                    &&& *m == old(self).inner()
                    &&& *final(m) == final(self).inner()
                    &&& entered(m, Edge::Bottom)
                },
    {
        self.updated = true;
        self.inner.enter_bottom()
    }

    /// Sets the mark and tells the widget inside, by the same hook.
    fn enter_right(&mut self)
        ensures
            final(self).is_dirty(),
            exists|m: &mut E|
                #![trigger call_ensures(<E as Element<'a>>::enter_right, (m,), ())]
                {
                    &&& *m == old(self).inner()
                    &&& *final(m) == final(self).inner()
                    &&& entered(m, Edge::Right)
                },
    {
        self.updated = true;
        self.inner.enter_right()
    }

    /// Sets the mark and tells the widget inside, by the same hook.
    fn enter_left(&mut self)
        ensures
            final(self).is_dirty(),
            exists|m: &mut E|
                #![trigger call_ensures(<E as Element<'a>>::enter_left, (m,), ())]
                {
                    &&& *m == old(self).inner()
                    &&& *final(m) == final(self).inner()
                    &&& entered(m, Edge::Left)
                },
    {
        self.updated = true;
        self.inner.enter_left()
    }

    /// Sets the mark and hands the alert to the widget inside; the handles
    /// named are those that the widget inside names.
    fn alert(&mut self) -> (further: Vec<ElemHandle>)
        ensures
            final(self).is_dirty(),
            exists|m: &mut E|
                #![trigger call_ensures(<E as Element<'a>>::alert, (m,), further)]
                {
                    &&& *m == old(self).inner()
                    &&& *final(m) == final(self).inner()
                    &&& alerted(m, further)
                },
    {
        self.updated = true;
        self.inner.alert()
    }
}

/// The lines of a text, as the standard library cuts it into lines.
pub uninterp spec fn lines_of(text: Seq<char>) -> Seq<Seq<char>>;

/// The texts that a vector of string slices holds.
pub open spec fn texts(lines: Seq<&str>) -> Seq<Seq<char>> {
    Seq::new(lines.len(), |i: int| lines[i]@)
}

/// Cuts a text into its lines with `str::lines` of the standard library:
/// at every line feed, and at every carriage return that a line feed
/// follows. The lines come without their line endings, and a line ending
/// at the very end of the text starts no further line. The contract only
/// names the result.
#[verifier::external_body]
fn split_lines<'a>(text: &'a str) -> (lines: Vec<&'a str>)
    ensures
        texts(lines@) == lines_of(text@),
{
    text.lines().collect()
}

/// A window of a fixed number of rows onto the lines of a text. The window
/// scrolls by one line upwards and downwards, and asks to leave where it
/// cannot scroll any further.
pub struct TextScroller<'a> {
    lines: Vec<&'a str>,
    width: usize,
    height: usize,
    window: usize,
}

impl<'a> TextScroller<'a> {
    #[verifier::type_invariant]
    spec fn inv(self) -> bool {
        self.window == 0 || self.window + self.height <= self.lines.len()
    }

    /// The lines of the text.
    pub closed spec fn lines(&self) -> Seq<Seq<char>> {
        texts(self.lines@)
    }

    /// The width of the window, in cells.
    pub closed spec fn columns(&self) -> usize {
        self.width
    }

    /// The height of the window, in rows.
    pub closed spec fn rows(&self) -> usize {
        self.height
    }

    /// The number of the line that the first row of the window shows.
    pub closed spec fn top(&self) -> usize {
        self.window
    }

    /// Whether the text has fewer lines than the window has rows.
    pub open spec fn short(&self) -> bool {
        self.lines().len() < self.rows()
    }

    /// The window is on the text: either at its start, or with a line of
    /// the text in each of its rows.
    pub open spec fn on_text(&self) -> bool {
        self.top() == 0 || self.top() + self.rows() <= self.lines().len()
    }

    /// How many rows the window draws: a row for each line of a short
    /// text, else every row.
    pub open spec fn rows_drawn(&self) -> int {
        if self.short() {
            self.lines().len() as int
        } else {
            self.rows() as int
        }
    }

    /// What the canvas holds after the first `count` rows of the window
    /// have been drawn at (`x`, `y`). A short text is written line by line
    /// as it is. Otherwise each row shows its line, cut or filled up with
    /// blanks to the width of the window.
    pub open spec fn drawn_rows(&self, before: Raster, x: int, y: int, count: int) -> Raster
        decreases count,
    {
        if count <= 0 {
            before
        } else {
            let prev = self.drawn_rows(before, x, y, count - 1);
            let i = count - 1;
            if self.short() {
                prev.with_text(self.lines()[i], x, y + i, TextStyles::new())
            } else {
                prev.with_run(
                    x,
                    y + i,
                    padded(self.lines()[self.top() + i], self.columns() as nat, ' '),
                    TextStyles::new(),
                )
            }
        }
    }

    /// What the window answers to `input`: the first and the last line
    /// cannot be scrolled past, so there the window asks to be left.
    pub open spec fn verdict(&self, input: char) -> Response {
        if input == UP {
            if self.top() > 0 {
                Response::Contained
            } else {
                Response::MoveUp
            }
        } else if input == DOWN {
            if self.top() + self.rows() < self.lines().len() {
                Response::Contained
            } else {
                Response::MoveDown
            }
        } else {
            match Direction::of(input) {
                Some(direction) => direction.request(),
                None => Response::Nothing,
            }
        }
    }

    /// The line that the first row shows after the window has answered
    /// `input`.
    pub open spec fn top_after(&self, input: char) -> int {
        if input == UP && self.top() > 0 {
            self.top() - 1
        } else if input == DOWN && self.top() + self.rows() < self.lines().len() {
            self.top() + 1
        } else {
            self.top() as int
        }
    }

    /// A window of `width` by `height` cells onto `text`, at its start.
    pub fn new(text: &'a str, width: usize, height: usize) -> (r: TextScroller<'a>)
        ensures
            r.lines() == lines_of(text@),
            r.columns() == width,
            r.rows() == height,
            r.top() == 0,
            r.on_text(),
    {
        TextScroller::from_lines(split_lines(text), width, height)
    }

    /// A window of `width` by `height` cells onto the text that has these
    /// lines, at its start.
    pub fn from_lines(lines: Vec<&'a str>, width: usize, height: usize) -> (r: TextScroller<'a>)
        ensures
            r.lines() == texts(lines@),
            r.columns() == width,
            r.rows() == height,
            r.top() == 0,
            r.on_text(),
    {
        TextScroller { lines, width, height, window: 0 }
    }

    /// The number of the line that the first row of the window shows.
    pub fn window(&self) -> (r: usize)
        ensures
            r == self.top(),
    {
        self.window
    }

    /// How many lines the text has.
    pub fn line_count(&self) -> (r: usize)
        ensures
            r == self.lines().len(),
    {
        self.lines.len()
    }

    /// Scrolls one line up, if the window is not at the first line; else
    /// asks to move the focus up.
    pub fn scroll_up(&mut self) -> (r: Response)
        ensures
            final(self).on_text(),
            final(self).lines() == old(self).lines(),
            final(self).columns() == old(self).columns(),
            final(self).rows() == old(self).rows(),
            old(self).top() > 0 ==> r == Response::Contained && final(self).top() == old(self).top()
                - 1,
            old(self).top() == 0 ==> r == Response::MoveUp && final(self).top() == 0,
    {
        proof {
            use_type_invariant(&*self);
        }
        if self.window > 0 {
            self.window = self.window - 1;
            Response::Contained
        } else {
            Response::MoveUp
        }
    }

    /// Scrolls one line down, if lines follow below the window; else asks
    /// to move the focus down.
    pub fn scroll_down(&mut self) -> (r: Response)
        ensures
            final(self).on_text(),
            final(self).lines() == old(self).lines(),
            final(self).columns() == old(self).columns(),
            final(self).rows() == old(self).rows(),
            old(self).top() + old(self).rows() < old(self).lines().len() ==> r
                == Response::Contained && final(self).top() == old(self).top() + 1,
            old(self).top() + old(self).rows() >= old(self).lines().len() ==> r
                == Response::MoveDown && final(self).top() == old(self).top(),
    {
        proof {
            use_type_invariant(&*self);
        }
        let below = match self.window.checked_add(self.height) {
            Some(end) => end < self.lines.len(),
            None => false,
        };
        if below {
            self.window = self.window + 1;
            Response::Contained
        } else {
            Response::MoveDown
        }
    }
}

impl<'a> Element<'a> for TextScroller<'a> {
    open spec fn drawn(&self, before: Raster, x: usize, y: usize, selected: bool) -> Raster {
        self.drawn_rows(before, x as int, y as int, self.rows_drawn())
    }

    /// Draws the window at (`x`, `y`); see [`TextScroller::drawn_rows`].
    /// The window looks the same whether it is selected or not.
    fn draw(&self, canvas: &mut Canvas, x: usize, y: usize, selected: bool) {
        proof {
            use_type_invariant(self);
            canvas.lemma_view_wf();
        }
        let short = self.lines.len() < self.height;
        let count: usize = if short {
            self.lines.len()
        } else {
            self.height
        };
        let mut i: usize = 0;
        while i < count
            invariant
                i <= count,
                short == self.short(),
                count == self.rows_drawn(),
                self.lines@.len() == self.lines().len(),
                self.window == self.top(),
                self.width == self.columns(),
                !short ==> self.window + count <= self.lines.len(),
                short ==> count == self.lines@.len(),
                canvas@ == self.drawn_rows(old(canvas)@, x as int, y as int, i as int),
                canvas@.wf(),
                canvas@.width == old(canvas)@.width,
                canvas@.height == old(canvas)@.height,
                canvas@.height <= usize::MAX,
            decreases count - i,
        {
            let ghost prev = canvas@;
            if short {
                let line = self.lines[i];
                assert(self.lines()[i as int] == line@);
                match y.checked_add(i) {
                    Some(row) => {
                        canvas.text(line, x, row, TextStyles::new());
                    },
                    None => {
                        proof {
                            prev.lemma_text_outside(line@, 0, x as int, y + i, TextStyles::new());
                        }
                    },
                }
                proof {
                    prev.lemma_text_keeps_size(line@, 0, x as int, y + i, TextStyles::new());
                }
            } else {
                let line = self.lines[self.window + i];
                assert(self.lines()[self.top() + i] == line@);
                match y.checked_add(i) {
                    Some(row) => {
                        padded_line(canvas, line, x, row, self.width, ' ', TextStyles::new());
                    },
                    None => {
                        proof {
                            prev.lemma_run_outside(
                                x as int,
                                y + i,
                                padded(line@, self.width as nat, ' '),
                                TextStyles::new(),
                                true,
                            );
                        }
                    },
                }
                proof {
                    prev.lemma_laid(
                        x as int,
                        y + i,
                        padded(line@, self.width as nat, ' '),
                        TextStyles::new(),
                        true,
                    );
                }
            }
            i = i + 1;
        }
    }

    /// Scrolls on the symbols for up and down, as far as the text goes;
    /// asks to move the focus on those for left and right, and where the
    /// text ends; does not recognise anything else.
    fn respond(&mut self, input: char) -> (r: Response)
        ensures
            r == old(self).verdict(input),
            final(self).top() == old(self).top_after(input),
            final(self).on_text(),
            final(self).lines() == old(self).lines(),
            final(self).columns() == old(self).columns(),
            final(self).rows() == old(self).rows(),
    {
        proof {
            use_type_invariant(&*self);
        }
        if input == UP {
            self.scroll_up()
        } else if input == DOWN {
            self.scroll_down()
        } else {
            match Direction::from_input(input) {
                Some(direction) => direction.into_request(),
                None => Response::Nothing,
            }
        }
    }
}

/// Writes a line of exactly `length` cells on row `y` from column `x`: the
/// characters of `text` as far as they go, then `pad`.
///
/// The line is one run: what would fall at or beyond the right edge is
/// dropped, the first cell written takes the styles' start marks and the
/// last cell written their stop marks. A line that starts outside the
/// canvas, or has no length, changes nothing.
pub fn padded_line(
    canvas: &mut Canvas,
    text: &str,
    x: usize,
    y: usize,
    length: usize,
    pad: char,
    styles: TextStyles,
)
    ensures
        final(canvas)@ == old(canvas)@.with_run(
            x as int,
            y as int,
            padded(text@, length as nat, pad),
            styles,
        ),
{
    let ghost base = canvas@;
    let ghost run = padded(text@, length as nat, pad);
    proof {
        canvas.lemma_view_wf();
    }
    if x >= canvas.width() || y >= canvas.height() || length == 0 {
        proof {
            base.lemma_run_outside(x as int, y as int, run, styles, true);
        }
        return ;
    }
    let width: usize = canvas.width();
    let count: usize = if length >= width - x {
        width - x
    } else {
        length
    };
    let mut col: usize = x;
    proof {
        assert(run.take(0) =~= Seq::<char>::empty());
        base.lemma_run_outside(x as int, y as int, run.take(0), styles, false);
    }
    for letter in it: text.chars()
        invariant
            it.seq() == text@,
            run == padded(text@, length as nat, pad),
            base.wf(),
            base.width == width,
            base.holds(x as int, y as int),
            count == clipped(length as int, x as int, width as int),
            x <= col <= x + count,
            col - x == if it.index() <= count {
                it.index()
            } else {
                count as int
            },
            canvas@ == base.laid(x as int, y as int, run.take(col - x), styles, false),
    {
        if col - x < count {
            write_next(canvas, letter, x, y, col, styles, Ghost(base), Ghost(run));
            col = col + 1;
        }
    }
    while col - x < count
        invariant
            run == padded(text@, length as nat, pad),
            base.wf(),
            base.width == width,
            base.holds(x as int, y as int),
            count == clipped(length as int, x as int, width as int),
            x <= col <= x + count,
            col - x < count ==> text@.len() <= col - x,
            canvas@ == base.laid(x as int, y as int, run.take(col - x), styles, false),
        decreases x + count - col,
    {
        write_next(canvas, pad, x, y, col, styles, Ghost(base), Ghost(run));
        col = col + 1;
    }
    proof {
        base.lemma_laid_clipped(x as int, y as int, run, styles, false);
        base.lemma_close_run(x as int, y as int, run, styles);
        base.lemma_laid(x as int, y as int, run, styles, false);
    }
    let last = canvas.get_unchecked_mut(col - 1, y);
    last.set_styles_off(styles);
}

/// Writes the next character of a run that is being written on row `y`
/// from column `x` and has come to column `col`.
fn write_next(
    canvas: &mut Canvas,
    letter: char,
    x: usize,
    y: usize,
    col: usize,
    styles: TextStyles,
    Ghost(base): Ghost<Raster>,
    Ghost(run): Ghost<Seq<char>>,
)
    requires
        base.wf(),
        base.holds(x as int, y as int),
        x <= col < base.width,
        col - x < run.len(),
        run[col - x] == letter,
        old(canvas)@ == base.laid(x as int, y as int, run.take(col - x), styles, false),
    ensures
        final(canvas)@ == base.laid(x as int, y as int, run.take(col - x + 1), styles, false),
{
    proof {
        base.lemma_extend_run(x as int, y as int, run, col - x, styles);
        base.lemma_laid(x as int, y as int, run.take(col - x), styles, false);
    }
    let cell = canvas.get_unchecked_mut(col, y);
    cell.ch = letter;
    if col == x {
        cell.set_styles_on(styles);
    }
}

} // verus!
