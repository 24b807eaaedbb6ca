//! The focus container: widgets placed on the canvas and wired into a mesh
//! along which the focus moves.
//!
//! A container holds its widgets in entries that are never reordered or
//! removed, so the number of an entry names it for as long as the container
//! lives. One entry has the focus. Each entry may name a neighbour in each
//! of the four directions; the links need not be symmetric.

use vstd::prelude::*;
use crate::canvas::Canvas;
use crate::element::{
    advanced, alerted, entered, responded, shifted, Direction, Edge, Element, Response,
};
use crate::raster::Raster;
use std::collections::VecDeque;

verus! {

/// The entry that a new container gives the focus, and that a container
/// entered from the top or from the left gives it to.
pub const TL_IDX: usize = 0;

/// The entry that a container entered from the bottom or from the right
/// gives the focus to.
pub const BR_IDX: usize = 1;

/// The largest number of alerts that one cascade delivers.
pub const ALERT_LIMIT: usize = usize::MAX;

/// The name of an entry of a container. It is only a number: it owns
/// nothing, and it means something only to the container that gave it.
#[derive(Clone, Copy, Debug, PartialEq, Eq)]
pub struct ElemHandle(usize);

impl ElemHandle {
    /// The number of the entry that the handle names.
    pub closed spec fn index(self) -> usize {
        self.0
    }
}

/// The error of using a handle on a container that has no such entry.
#[derive(Clone, Copy, Debug)]
pub struct HandleOutOfBounds(ElemHandle);

impl HandleOutOfBounds {
    /// The handle that the error is about.
    pub closed spec fn culprit(self) -> ElemHandle {
        self.0
    }

    /// The handle that did not name an entry.
    pub fn handle(self) -> (h: ElemHandle)
        ensures
            h == self.culprit(),
    {
        self.0
    }

    /// What went wrong, in a sentence.
    pub fn description(&self) -> (r: &'static str)
        ensures
            r@ == "An element handle was invalid for the element grid on which it was used"@,
    {
        "An element handle was invalid for the element grid on which it was used"
    }

    /// The name of the error.
    pub fn to_string(&self) -> (r: String)
        ensures
            r@ == "HandleOutOfBounds"@,
    {
        "HandleOutOfBounds".to_owned()
    }
}

/// The neighbours of an entry: for each direction the number of the entry
/// that the focus moves to, if there is one.
#[derive(Clone, Copy, Debug, PartialEq, Eq)]
pub struct Links {
    pub up: Option<usize>,
    pub down: Option<usize>,
    pub left: Option<usize>,
    pub right: Option<usize>,
}

impl Links {
    /// No neighbour in any direction.
    pub open spec fn none() -> Links {
        Links { up: None, down: None, left: None, right: None }
    }

    /// The neighbour in the given direction.
    pub open spec fn toward(self, direction: Direction) -> Option<usize> {
        match direction {
            Direction::Up => self.up,
            Direction::Down => self.down,
            Direction::Left => self.left,
            Direction::Right => self.right,
        }
    }

    /// The same links, but for the neighbour in the given direction, which
    /// is `to`.
    pub open spec fn with(self, direction: Direction, to: usize) -> Links {
        match direction {
            Direction::Up => Links { up: Some(to), ..self },
            Direction::Down => Links { down: Some(to), ..self },
            Direction::Left => Links { left: Some(to), ..self },
            Direction::Right => Links { right: Some(to), ..self },
        }
    }

    /// Every neighbour is an entry of a container of `len` entries.
    pub open spec fn within(self, len: int) -> bool {
        &&& self.up matches Some(i) ==> i < len
        &&& self.down matches Some(i) ==> i < len
        &&& self.left matches Some(i) ==> i < len
        &&& self.right matches Some(i) ==> i < len
    }

    /// The neighbour in the given direction.
    pub fn get(&self, direction: Direction) -> (r: Option<usize>)
        ensures
            r == self.toward(direction),
    {
        match direction {
            Direction::Up => self.up,
            Direction::Down => self.down,
            Direction::Left => self.left,
            Direction::Right => self.right,
        }
    }

    /// Makes `to` the neighbour in the given direction.
    pub fn set(&mut self, direction: Direction, to: usize)
        ensures
            *final(self) == old(self).with(direction, to),
    {
        match direction {
            Direction::Up => {
                self.up = Some(to);
            },
            Direction::Down => {
                self.down = Some(to);
            },
            Direction::Left => {
                self.left = Some(to);
            },
            Direction::Right => {
                self.right = Some(to);
            },
        }
    }
}

/// An entry of a container: a widget, where it is drawn, and its
/// neighbours.
///
/// The entry is generic in its widget, so that it can hold a widget of one
/// known type as well as any widget at all; a container holds entries of
/// the second sort, see [`Entry`].
pub struct ElemHolder<E: ?Sized> {
    elem: Box<E>,
    x: usize,
    y: usize,
    links: Links,
}

/// An entry that holds any widget.
pub type Entry<'a> = ElemHolder<dyn Element<'a> + 'a>;

impl<E: ?Sized> ElemHolder<E> {
    /// The widget of the entry.
    pub closed spec fn widget(&self) -> Box<E> {
        self.elem
    }

    /// Where the widget is drawn, as column and row, from the container's
    /// own place.
    pub closed spec fn origin(&self) -> (usize, usize) {
        (self.x, self.y)
    }

    /// The neighbours of the entry.
    pub closed spec fn links(&self) -> Links {
        self.links
    }

    /// An entry for `elem`, drawn at (`x`, `y`), without neighbours.
    pub fn new(elem: Box<E>, x: usize, y: usize) -> (r: ElemHolder<E>)
        ensures
            r.widget() == elem,
            r.origin() == (x, y),
            r.links() == Links::none(),
    {
        ElemHolder { elem, x, y, links: Links { up: None, down: None, left: None, right: None } }
    }
}

impl<E: ?Sized> ElemHolder<E> {
    /// Where the widget is drawn, as column and row.
    pub fn place(&self) -> (r: (usize, usize))
        ensures
            r == self.origin(),
    {
        (self.x, self.y)
    }

    /// The neighbours of the entry.
    pub fn neighbours(&self) -> (r: Links)
        ensures
            r == self.links(),
    {
        self.links
    }
}

impl<'a> ElemHolder<dyn Element<'a> + 'a> {
    /// Tells the widget that the focus has entered it through `edge`.
    fn enter(&mut self, edge: Edge)
        requires
            old(self).widget().wf(),
        ensures
            final(self).widget().wf(),
            final(self).origin() == old(self).origin(),
            final(self).links() == old(self).links(),
            exists|m: &mut (dyn Element<'a> + 'a)|
                {
                    &&& &*m == &*old(self).widget()
                    &&& &*final(m) == &*final(self).widget()
                    &&& #[trigger] entered(m, edge)
                },
    {
        enter_widget(&mut self.elem, edge)
    }

    /// Ends the frame of the widget.
    fn advance(&mut self)
        requires
            old(self).widget().wf(),
        ensures
            final(self).widget().wf(),
            final(self).origin() == old(self).origin(),
            final(self).links() == old(self).links(),
            exists|m: &mut (dyn Element<'a> + 'a)|
                {
                    &&& &*m == &*old(self).widget()
                    &&& &*final(m) == &*final(self).widget()
                    &&& #[trigger] advanced(m)
                },
    {
        advance_widget(&mut self.elem)
    }

    /// Hands `input` to the widget and gives its answer.
    fn respond(&mut self, input: char) -> (answer: Response)
        requires
            old(self).widget().wf(),
        ensures
            final(self).widget().wf(),
            final(self).origin() == old(self).origin(),
            final(self).links() == old(self).links(),
            exists|m: &mut (dyn Element<'a> + 'a)|
                {
                    &&& &*m == &*old(self).widget()
                    &&& &*final(m) == &*final(self).widget()
                    &&& #[trigger] responded(m, input, answer)
                },
    {
        respond_widget(&mut self.elem, input)
    }

    /// Alerts the widget and gives the handles that it names.
    fn alert(&mut self) -> (further: Vec<ElemHandle>)
        requires
            old(self).widget().wf(),
        ensures
            final(self).widget().wf(),
            final(self).origin() == old(self).origin(),
            final(self).links() == old(self).links(),
            exists|m: &mut (dyn Element<'a> + 'a)|
                {
                    &&& &*m == &*old(self).widget()
                    &&& &*final(m) == &*final(self).widget()
                    &&& #[trigger] alerted(m, further)
                },
    {
        alert_widget(&mut self.elem)
    }
}

/// Tells `widget` that the focus has entered it through `edge`, by the
/// hook of that edge.
fn enter_widget<'a, E: Element<'a> + ?Sized>(widget: &mut Box<E>, edge: Edge)
    requires
        old(widget).wf(),
    ensures
        final(widget).wf(),
        exists|m: &mut E|
            #![trigger call_ensures(<E as Element<'a>>::enter_top, (m,), ())]
            #![trigger call_ensures(<E as Element<'a>>::enter_bottom, (m,), ())]
            #![trigger call_ensures(<E as Element<'a>>::enter_left, (m,), ())]
            #![trigger call_ensures(<E as Element<'a>>::enter_right, (m,), ())]
            {
                &&& &*m == &**old(widget)
                &&& &*final(m) == &**final(widget)
                &&& entered(m, edge)
            },
{
    let inner = &mut **widget;
    match edge {
        Edge::Top => inner.enter_top(),
        Edge::Bottom => inner.enter_bottom(),
        Edge::Left => inner.enter_left(),
        Edge::Right => inner.enter_right(),
    }
}

/// Ends the frame of `widget`.
fn advance_widget<'a, E: Element<'a> + ?Sized>(widget: &mut Box<E>)
    requires
        old(widget).wf(),
    ensures
        final(widget).wf(),
        exists|m: &mut E|
            #![trigger call_ensures(<E as Element<'a>>::advance, (m,), ())]
            {
                &&& &*m == &**old(widget)
                &&& &*final(m) == &**final(widget)
                &&& advanced(m)
            },
{
    let inner = &mut **widget;
    inner.advance()
}

/// Hands `input` to `widget` and gives its answer.
fn respond_widget<'a, E: Element<'a> + ?Sized>(widget: &mut Box<E>, input: char) -> (answer:
    Response)
    requires
        old(widget).wf(),
    ensures
        final(widget).wf(),
        exists|m: &mut E|
            #![trigger call_ensures(<E as Element<'a>>::respond, (m, input), answer)]
            {
                &&& &*m == &**old(widget)
                &&& &*final(m) == &**final(widget)
                &&& responded(m, input, answer)
            },
{
    let inner = &mut **widget;
    inner.respond(input)
}

/// Alerts `widget` and gives the handles that it names.
fn alert_widget<'a, E: Element<'a> + ?Sized>(widget: &mut Box<E>) -> (further: Vec<ElemHandle>)
    requires
        old(widget).wf(),
    ensures
        final(widget).wf(),
        exists|m: &mut E|
            #![trigger call_ensures(<E as Element<'a>>::alert, (m,), further)]
            {
                &&& &*m == &**old(widget)
                &&& &*final(m) == &**final(widget)
                &&& alerted(m, further)
            },
{
    let inner = &mut **widget;
    inner.alert()
}

/// The links of entry `at` after entry `from` has been given `to` as its
/// neighbour in the given direction, and `to` has been given `from` as its
/// neighbour in the opposite one. A link that was there in one of these two
/// places is replaced; every other link stays.
pub open spec fn wired(before: Links, at: int, from: usize, direction: Direction, to: usize) -> Links {
    let first = if at == from {
        before.with(direction, to)
    } else {
        before
    };
    if at == to {
        first.with(direction.reverse(), from)
    } else {
        first
    }
}

/// Puts the handles of `more` behind those that wait in `pending`.
fn enqueue(pending: &mut VecDeque<ElemHandle>, more: &Vec<ElemHandle>)
    ensures
        final(pending)@ == old(pending)@ + more@,
{
    let mut i: usize = 0;
    assert(pending@ =~= old(pending)@ + more@.take(0));
    while i < more.len()
        invariant
            i <= more.len(),
            pending@ == old(pending)@ + more@.take(i as int),
        decreases more.len() - i,
    {
        pending.push_back(more[i]);
        assert(old(pending)@ + more@.take(i + 1) =~= (old(pending)@ + more@.take(i as int)).push(
            more@[i as int],
        ));
        i = i + 1;
    }
    assert(more@.take(more@.len() as int) =~= more@);
}

/// A container of widgets with one of them in focus.
pub struct Grid<'a> {
    elems: Vec<Entry<'a>>,
    focus: usize,
}

impl<'a> Grid<'a> {
    /// The entries, in the order in which they were added.
    pub closed spec fn entries(&self) -> Seq<Entry<'a>> {
        self.elems@
    }

    /// The number of the entry that has the focus.
    pub closed spec fn focused(&self) -> usize {
        self.focus
    }

    /// The container has its first two entries, the focus is on an entry,
    /// and every link leads to an entry.
    pub open spec fn well_wired(&self) -> bool {
        &&& self.entries().len() >= 2
        &&& self.focused() < self.entries().len()
        &&& forall|i: int|
            0 <= i < self.entries().len() ==> (#[trigger] self.entries()[i]).links().within(
                self.entries().len() as int,
            )
    }

    /// Whether `handle` names an entry of this container.
    pub open spec fn live(&self, handle: ElemHandle) -> bool {
        handle.index() < self.entries().len()
    }

    /// The neighbour of the entry in focus in the given direction.
    pub open spec fn neighbor(&self, direction: Direction) -> Option<usize> {
        self.entries()[self.focused() as int].links().toward(direction)
    }

    /// The other container has the same number of entries, at the same
    /// places and with the same links. Only the widgets may differ.
    pub open spec fn same_layout(&self, other: Grid<'a>) -> bool {
        &&& self.entries().len() == other.entries().len()
        &&& forall|i: int|
            #![trigger self.entries()[i]]
            #![trigger other.entries()[i]]
            0 <= i < self.entries().len() ==> {
                &&& self.entries()[i].origin() == other.entries()[i].origin()
                &&& self.entries()[i].links() == other.entries()[i].links()
            }
    }

    /// The other container has the same layout, and the same widgets too,
    /// but perhaps for the widget of entry `i`.
    pub open spec fn same_but(&self, other: Grid<'a>, i: int) -> bool {
        &&& self.same_layout(other)
        &&& forall|j: int|
            #![trigger self.entries()[j]]
            #![trigger other.entries()[j]]
            0 <= j < self.entries().len() && j != i ==> self.entries()[j] == other.entries()[j]
    }

    /// The other container is this one after `from` and `to` have been
    /// linked in the given direction, there and back: the same widgets at
    /// the same places, and the links that [`wired`] gives.
    pub open spec fn connected(
        &self,
        from: ElemHandle,
        direction: Direction,
        to: ElemHandle,
        other: Grid<'a>,
    ) -> bool {
        &&& other.focused() == self.focused()
        &&& other.entries().len() == self.entries().len()
        &&& forall|i: int|
            #![trigger self.entries()[i]]
            #![trigger other.entries()[i]]
            0 <= i < self.entries().len() ==> {
                &&& other.entries()[i].widget() == self.entries()[i].widget()
                &&& other.entries()[i].origin() == self.entries()[i].origin()
                &&& other.entries()[i].links() == wired(
                    self.entries()[i].links(),
                    i,
                    from.index(),
                    direction,
                    to.index(),
                )
            }
    }

    /// What a move of the focus in the given direction makes of a
    /// container, and what the container answers.
    ///
    /// Where the entry in focus has a neighbour in that direction, the
    /// neighbour gets the focus and the answer is that the input was dealt
    /// with; nothing else changes but the widget that was entered. Where it
    /// has none, the container stays as it is and hands the request on.
    pub open spec fn moved(
        before: Grid<'a>,
        direction: Direction,
        after: Grid<'a>,
        answer: Response,
    ) -> bool {
        match before.neighbor(direction) {
            Some(next) => {
                &&& answer == Response::Contained
                &&& after.focused() == next
                &&& before.same_but(after, next as int)
            },
            None => {
                &&& answer == direction.request()
                &&& after == before
            },
        }
    }

    /// What the answer of the widget in focus makes of a container, and
    /// what the container answers in turn.
    ///
    /// "Not recognised" and "dealt with" are handed on, and nothing
    /// changes. A move request moves the focus, as [`Grid::moved`] says. An
    /// alert is delivered and thereby dealt with; it leaves the focus and
    /// the layout as they are.
    pub open spec fn resolved(
        before: Grid<'a>,
        verdict: Response,
        after: Grid<'a>,
        answer: Response,
    ) -> bool {
        match verdict {
            Response::Nothing => answer == Response::Nothing && after == before,
            Response::Contained => answer == Response::Contained && after == before,
            Response::MoveUp => Grid::moved(before, Direction::Up, after, answer),
            Response::MoveDown => Grid::moved(before, Direction::Down, after, answer),
            Response::MoveLeft => Grid::moved(before, Direction::Left, after, answer),
            Response::MoveRight => Grid::moved(before, Direction::Right, after, answer),
            Response::Alert(_) => {
                &&& answer == Response::Contained
                &&& after.focused() == before.focused()
                &&& before.same_layout(after)
            },
        }
    }

    /// What handing an input to a container makes of it, and what the
    /// container answers: the widget in focus has had the input and has
    /// given some answer, and the container has acted on that answer as
    /// [`Grid::resolved`] says.
    pub open spec fn responded(before: Grid<'a>, after: Grid<'a>, answer: Response) -> bool {
        exists|mid: Grid<'a>, verdict: Response|
            {
                &&& before.same_but(mid, before.focused() as int)
                &&& mid.focused() == before.focused()
                &&& #[trigger] Grid::resolved(mid, verdict, after, answer)
            }
    }

    /// A move request that finds no neighbour is handed on, and the
    /// container stays as it was, focus and all.
    pub proof fn lemma_move_handed_on(
        before: Grid<'a>,
        verdict: Response,
        direction: Direction,
        after: Grid<'a>,
        answer: Response,
    )
        requires
            verdict.heading() == Some(direction),
            before.neighbor(direction) is None,
            Grid::resolved(before, verdict, after, answer),
        ensures
            answer == verdict,
            after.focused() == before.focused(),
            after == before,
    {
    }

    /// A move request that finds a neighbour gives the neighbour the
    /// focus and is thereby dealt with. No widget but that of the neighbour
    /// is touched, and the layout stays.
    pub proof fn lemma_move_made(
        before: Grid<'a>,
        verdict: Response,
        direction: Direction,
        next: usize,
        after: Grid<'a>,
        answer: Response,
    )
        requires
            verdict.heading() == Some(direction),
            before.neighbor(direction) == Some(next),
            Grid::resolved(before, verdict, after, answer),
        ensures
            answer == Response::Contained,
            after.focused() == next,
            before.same_but(after, next as int),
    {
    }

    /// Whatever the widget in focus answers to an input: if the container
    /// hands on a move request, the entry in focus had no neighbour in that
    /// direction and the focus is where it was; and if the focus is on
    /// another entry than before, that entry was a neighbour of the entry
    /// that had the focus, and the container has dealt with the input. The
    /// layout stays in any case.
    pub proof fn lemma_responded(before: Grid<'a>, after: Grid<'a>, answer: Response)
        requires
            before.well_wired(),
            Grid::responded(before, after, answer),
        ensures
            before.same_layout(after),
            forall|direction: Direction|
                answer.heading() == Some(direction) ==> #[trigger] before.neighbor(direction)
                    is None && after.focused() == before.focused(),
            after.focused() != before.focused() ==> answer == Response::Contained && exists|
                direction: Direction,
            | #[trigger] before.neighbor(direction) == Some(after.focused()),
    {
        let (mid, verdict) = choose|mid: Grid<'a>, verdict: Response|
            {
                &&& before.same_but(mid, before.focused() as int)
                &&& mid.focused() == before.focused()
                &&& #[trigger] Grid::resolved(mid, verdict, after, answer)
            };
        let at = before.focused() as int;
        assert(before.entries()[at].links() == mid.entries()[at].links());
        assert forall|direction: Direction| before.neighbor(direction) == mid.neighbor(
            direction,
        ) by {}
        if after.focused() != before.focused() {
            match verdict {
                Response::MoveUp => {
                    assert(before.neighbor(Direction::Up) == Some(after.focused()));
                },
                Response::MoveDown => {
                    assert(before.neighbor(Direction::Down) == Some(after.focused()));
                },
                Response::MoveLeft => {
                    assert(before.neighbor(Direction::Left) == Some(after.focused()));
                },
                Response::MoveRight => {
                    assert(before.neighbor(Direction::Right) == Some(after.focused()));
                },
                _ => {},
            }
        }
        assert forall|direction: Direction|
            answer.heading() == Some(direction) implies #[trigger] before.neighbor(direction)
            is None && after.focused() == before.focused() by {
            assert(before.neighbor(direction) == mid.neighbor(direction));
        }
    }

    /// What the canvas holds after the first `count` entries have been
    /// drawn, one after the other, each at its own place from (`x`, `y`),
    /// and as selected only if the container is and the entry has the
    /// focus.
    pub open spec fn drawn_upto(
        &self,
        before: Raster,
        x: usize,
        y: usize,
        selected: bool,
        count: int,
    ) -> Raster
        decreases count,
    {
        if count <= 0 {
            before
        } else {
            let entry = self.entries()[count - 1];
            entry.widget().drawn(
                self.drawn_upto(before, x, y, selected, count - 1),
                shifted(x, entry.origin().0),
                shifted(y, entry.origin().1),
                selected && self.focused() == count - 1,
            )
        }
    }

    /// A container of two widgets: `tl` drawn at (`tl_x`, `tl_y`), which
    /// has the focus, and `br` drawn at (`br_x`, `br_y`). Room is set
    /// aside for `cap` more, if it can be had.
    pub fn with_capacity(
        tl: Box<dyn Element<'a> + 'a>,
        tl_x: usize,
        tl_y: usize,
        br: Box<dyn Element<'a> + 'a>,
        br_x: usize,
        br_y: usize,
        cap: usize,
    ) -> (r: Grid<'a>)
        requires
            tl.wf(),
            br.wf(),
        ensures
            r.wf(),
            r.focused() == TL_IDX,
            r.entries().len() == 2,
            r.entries()[0].widget() == tl,
            r.entries()[0].origin() == (tl_x, tl_y),
            r.entries()[0].links() == Links::none(),
            r.entries()[1].widget() == br,
            r.entries()[1].origin() == (br_x, br_y),
            r.entries()[1].links() == Links::none(),
    {
        // Each entry is made and named before it is stored: a box that is
        // handed straight to where a trait object is expected counts as a
        // new trait object, and nothing would be known of its widget.
        let first = ElemHolder::new(tl, tl_x, tl_y);
        let second = ElemHolder::new(br, br_x, br_y);
        let mut elems = Vec::new();
        let _ = elems.try_reserve(cap.saturating_add(2));
        elems.push(first);
        elems.push(second);
        Grid { elems, focus: TL_IDX }
    }

    /// The number of entries.
    pub fn len(&self) -> (n: usize)
        ensures
            n == self.entries().len(),
    {
        self.elems.len()
    }

    /// The handle of the entry that has the focus.
    pub fn focus_handle(&self) -> (h: ElemHandle)
        ensures
            h.index() == self.focused(),
    {
        ElemHandle(self.focus)
    }

    /// The handle of the first entry.
    pub fn top_left(&self) -> (h: ElemHandle)
        ensures
            h.index() == TL_IDX,
    {
        ElemHandle(TL_IDX)
    }

    /// The handle of the second entry.
    pub fn bottom_right(&self) -> (h: ElemHandle)
        ensures
            h.index() == BR_IDX,
    {
        ElemHandle(BR_IDX)
    }

    /// The number of the entry that `handle` names, if it names one of this
    /// container.
    pub fn resolves(&self, handle: ElemHandle) -> (r: Option<usize>)
        ensures
            r == (if self.live(handle) {
                Some(handle.index())
            } else {
                None
            }),
    {
        if handle.0 < self.elems.len() {
            Some(handle.0)
        } else {
            None
        }
    }

    /// The neighbours of the entry that `handle` names, if it names one.
    pub fn links(&self, handle: ElemHandle) -> (r: Option<Links>)
        ensures
            r == (if self.live(handle) {
                Some(self.entries()[handle.index() as int].links())
            } else {
                None
            }),
    {
        match self.resolves(handle) {
            Some(index) => Some(self.elems[index].neighbours()),
            None => None,
        }
    }

    /// Where the entry that `handle` names is drawn, as column and row
    /// from the container's own place, if it names one.
    pub fn origin(&self, handle: ElemHandle) -> (r: Option<(usize, usize)>)
        ensures
            r == (if self.live(handle) {
                Some(self.entries()[handle.index() as int].origin())
            } else {
                None
            }),
    {
        match self.resolves(handle) {
            Some(index) => Some(self.elems[index].place()),
            None => None,
        }
    }

    /// Adds an entry for `elem`, drawn at (`x`, `y`), without neighbours,
    /// and gives its handle. The entries that were there stay as they are.
    pub fn add_elem(&mut self, elem: Box<dyn Element<'a> + 'a>, x: usize, y: usize) -> (h:
        ElemHandle)
        requires
            old(self).wf(),
            elem.wf(),
        ensures
            final(self).wf(),
            final(self).focused() == old(self).focused(),
            final(self).entries().len() == old(self).entries().len() + 1,
            forall|i: int|
                0 <= i < old(self).entries().len() ==> #[trigger] final(self).entries()[i] == old(
                    self,
                ).entries()[i],
            final(self).entries().last().widget() == elem,
            final(self).entries().last().origin() == (x, y),
            final(self).entries().last().links() == Links::none(),
            h.index() == old(self).entries().len(),
            final(self).live(h),
    {
        let at: usize = self.elems.len();
        let entry = ElemHolder::new(elem, x, y);
        self.elems.push(entry);
        ElemHandle(at)
    }

    /// Links `from` to `to` in the given direction, and `to` back to
    /// `from` in the opposite one.
    fn connect(&mut self, from: ElemHandle, direction: Direction, to: ElemHandle) -> (r: Result<
        (),
        HandleOutOfBounds,
    >)
        requires
            old(self).wf(),
        ensures
            final(self).wf(),
            final(self).focused() == old(self).focused(),
            match r {
                Ok(_) => {
                    &&& old(self).live(from)
                    &&& old(self).live(to)
                    &&& old(self).connected(from, direction, to, *final(self))
                },
                Err(e) => {
                    &&& !old(self).live(from) || !old(self).live(to)
                    &&& e.culprit() == (if !old(self).live(from) {
                        from
                    } else {
                        to
                    })
                    &&& *final(self) == *old(self)
                },
            },
    {
        let source: usize = match self.resolves(from) {
            Some(index) => index,
            None => {
                return Err(HandleOutOfBounds(from));
            },
        };
        let target: usize = match self.resolves(to) {
            Some(index) => index,
            None => {
                return Err(HandleOutOfBounds(to));
            },
        };
        self.elems[source].links.set(direction, target);
        self.elems[target].links.set(direction.reversed(), source);
        Ok(())
    }

    /// Puts `down` below `up`: moving down from `up` leads to `down`, and
    /// moving up from `down` leads to `up`. Links that were there in these
    /// two places are replaced. Fails, and changes nothing, if one of the
    /// handles names no entry; the error holds the first that does not.
    pub fn connect_up_down(&mut self, up: ElemHandle, down: ElemHandle) -> (r: Result<
        (),
        HandleOutOfBounds,
    >)
        requires
            old(self).wf(),
        ensures
            final(self).wf(),
            final(self).focused() == old(self).focused(),
            match r {
                Ok(_) => {
                    &&& old(self).live(up)
                    &&& old(self).live(down)
                    &&& old(self).connected(up, Direction::Down, down, *final(self))
                },
                Err(e) => {
                    &&& !old(self).live(up) || !old(self).live(down)
                    &&& e.culprit() == (if !old(self).live(up) {
                        up
                    } else {
                        down
                    })
                    &&& *final(self) == *old(self)
                },
            },
    {
        self.connect(up, Direction::Down, down)
    }

    /// Puts `right` to the right of `left`: moving right from `left` leads
    /// to `right`, and moving left from `right` leads to `left`. Links that
    /// were there in these two places are replaced. Fails, and changes
    /// nothing, if one of the handles names no entry; the error holds the
    /// first that does not.
    pub fn connect_left_right(&mut self, left: ElemHandle, right: ElemHandle) -> (r: Result<
        (),
        HandleOutOfBounds,
    >)
        requires
            old(self).wf(),
        ensures
            final(self).wf(),
            final(self).focused() == old(self).focused(),
            match r {
                Ok(_) => {
                    &&& old(self).live(left)
                    &&& old(self).live(right)
                    &&& old(self).connected(left, Direction::Right, right, *final(self))
                },
                Err(e) => {
                    &&& !old(self).live(left) || !old(self).live(right)
                    &&& e.culprit() == (if !old(self).live(left) {
                        left
                    } else {
                        right
                    })
                    &&& *final(self) == *old(self)
                },
            },
    {
        self.connect(left, Direction::Right, right)
    }

    /// Moves the focus in the given direction, if the entry in focus has
    /// a neighbour there, and tells the neighbour through which edge it was
    /// entered: the one that faces the entry that the focus came from.
    pub fn shift_focus(&mut self, direction: Direction) -> (r: Response)
        requires
            old(self).wf(),
        ensures
            final(self).wf(),
            Grid::moved(*old(self), direction, *final(self), r),
            old(self).neighbor(direction) matches Some(next) ==> exists|
                m: &mut (dyn Element<'a> + 'a),
            |
                {
                    &&& &*m == &*old(self).entries()[next as int].widget()
                    &&& &*final(m) == &*final(self).entries()[next as int].widget()
                    &&& #[trigger] entered(m, direction.arrival())
                },
    {
        match self.elems[self.focus].links.get(direction) {
            Some(next) => {
                self.focus = next;
                self.elems[next].enter(direction.entry_edge());
                Response::Contained
            },
            None => direction.into_request(),
        }
    }

    /// Moves the focus up; see [`Grid::shift_focus`].
    pub fn move_up(&mut self) -> (r: Response)
        requires
            old(self).wf(),
        ensures
            final(self).wf(),
            Grid::moved(*old(self), Direction::Up, *final(self), r),
            old(self).neighbor(Direction::Up) matches Some(next) ==> exists|
                m: &mut (dyn Element<'a> + 'a),
            |
                {
                    &&& &*m == &*old(self).entries()[next as int].widget()
                    &&& &*final(m) == &*final(self).entries()[next as int].widget()
                    &&& #[trigger] entered(m, Edge::Bottom)
                },
    {
        self.shift_focus(Direction::Up)
    }

    /// Moves the focus down; see [`Grid::shift_focus`].
    pub fn move_down(&mut self) -> (r: Response)
        requires
            old(self).wf(),
        ensures
            final(self).wf(),
            Grid::moved(*old(self), Direction::Down, *final(self), r),
            old(self).neighbor(Direction::Down) matches Some(next) ==> exists|
                m: &mut (dyn Element<'a> + 'a),
            |
                {
                    &&& &*m == &*old(self).entries()[next as int].widget()
                    &&& &*final(m) == &*final(self).entries()[next as int].widget()
                    &&& #[trigger] entered(m, Edge::Top)
                },
    {
        self.shift_focus(Direction::Down)
    }

    /// Moves the focus right; see [`Grid::shift_focus`].
    pub fn move_right(&mut self) -> (r: Response)
        requires
            old(self).wf(),
        ensures
            final(self).wf(),
            Grid::moved(*old(self), Direction::Right, *final(self), r),
            old(self).neighbor(Direction::Right) matches Some(next) ==> exists|
                m: &mut (dyn Element<'a> + 'a),
            |
                {
                    &&& &*m == &*old(self).entries()[next as int].widget()
                    &&& &*final(m) == &*final(self).entries()[next as int].widget()
                    &&& #[trigger] entered(m, Edge::Left)
                },
    {
        self.shift_focus(Direction::Right)
    }

    /// Moves the focus left; see [`Grid::shift_focus`].
    pub fn move_left(&mut self) -> (r: Response)
        requires
            old(self).wf(),
        ensures
            final(self).wf(),
            Grid::moved(*old(self), Direction::Left, *final(self), r),
            old(self).neighbor(Direction::Left) matches Some(next) ==> exists|
                m: &mut (dyn Element<'a> + 'a),
            |
                {
                    &&& &*m == &*old(self).entries()[next as int].widget()
                    &&& &*final(m) == &*final(self).entries()[next as int].widget()
                    &&& #[trigger] entered(m, Edge::Right)
                },
    {
        self.shift_focus(Direction::Left)
    }

    /// Alerts every widget that `targets` names, in their order, then every
    /// widget that those name in their answers, and so on until no further
    /// names come. A name that is no entry of this container is passed
    /// over; where no name is an entry, nothing happens at all.
    ///
    /// The container does not look for cycles. It counts the alerts that it
    /// delivers and stops at [`ALERT_LIMIT`], so that widgets that keep
    /// naming each other are alerted for as long as a machine can count.
    ///
    /// The contract gives the way from the container before to the
    /// container after as a trail of containers: each comes from the one
    /// before it by one alert, which leaves one widget as its own `alert`
    /// leaves it and nothing else changed. The first alert goes to the
    /// first of `targets` that names an entry.
    #[verifier::rlimit(60)]
    #[verifier::spinoff_prover]
    pub fn alert_all(&mut self, targets: &[ElemHandle])
        requires
            old(self).wf(),
        ensures
            final(self).wf(),
            final(self).focused() == old(self).focused(),
            old(self).same_layout(*final(self)),
            (forall|i: int| 0 <= i < targets@.len() ==> !old(self).live(#[trigger] targets@[i]))
                ==> *final(self) == *old(self),
            exists|trail: Seq<Grid<'a>>|
                {
                    &&& #[trigger] trail.len() >= 1
                    &&& trail[0] == *old(self)
                    &&& trail[trail.len() - 1] == *final(self)
                    &&& forall|k: int|
                        #![trigger trail[k]]
                        0 <= k < trail.len() - 1 ==> {
                            &&& trail[k].focused() == trail[k + 1].focused()
                            &&& exists|i: int|
                                {
                                    &&& 0 <= i < trail[k].entries().len()
                                    &&& trail[k].same_but(trail[k + 1], i)
                                    &&& (#[trigger] trail[k].entries()[i]).origin() == trail[k
                                        + 1].entries()[i].origin()
                                    &&& exists|m: &mut (dyn Element<'a> + 'a), further: Vec<ElemHandle>|
                                        {
                                            &&& &*m == &*trail[k].entries()[i].widget()
                                            &&& &*final(m) == &*trail[k + 1].entries()[i].widget()
                                            &&& #[trigger] alerted(m, further)
                                        }
                                }
                        }
                    &&& forall|j: int|
                        0 <= j < targets@.len() && old(self).live(#[trigger] targets@[j]) && (
                        forall|before: int|
                            0 <= before < j ==> !old(self).live(#[trigger] targets@[before]))
                            ==> {
                            &&& trail.len() >= 2
                            &&& trail[0].same_but(trail[1], targets@[j].index() as int)
                            &&& exists|m: &mut (dyn Element<'a> + 'a), further: Vec<ElemHandle>|
                                {
                                    &&& &*m == &*trail[0].entries()[targets@[j].index() as int].widget()
                                    &&& &*final(m) == &*trail[1].entries()[targets@[j].index()
                                        as int].widget()
                                    &&& #[trigger] alerted(m, further)
                                }
                        }
                },
    {
        let mut pending: VecDeque<ElemHandle> = VecDeque::new();
        let mut i: usize = 0;
        while i < targets.len()
            invariant
                i <= targets.len(),
                pending@ == targets@.take(i as int),
            decreases targets.len() - i,
        {
            pending.push_back(targets[i]);
            assert(targets@.take(i + 1) =~= targets@.take(i as int).push(targets@[i as int]));
            i = i + 1;
        }
        assert(pending@ =~= targets@.subrange(0, targets@.len() as int));
        let ghost mut passed: int = 0;
        let ghost mut first: int = 0;
        let ghost mut trail: Seq<Grid<'a>> = seq![*self];
        let mut delivered: usize = 0;
        while delivered < ALERT_LIMIT && pending.len() > 0
            invariant
                self.wf(),
                old(self).wf(),
                self.focused() == old(self).focused(),
                old(self).same_layout(*self),
                0 <= passed <= targets@.len(),
                trail.len() >= 1,
                trail[0] == *old(self),
                trail[trail.len() - 1] == *self,
                forall|k: int|
                    #![trigger trail[k]]
                    0 <= k < trail.len() - 1 ==> {
                        &&& trail[k].focused() == trail[k + 1].focused()
                        &&& exists|i: int|
                                {
                                    &&& 0 <= i < trail[k].entries().len()
                                    &&& trail[k].same_but(trail[k + 1], i)
                                    &&& (#[trigger] trail[k].entries()[i]).origin() == trail[k
                                        + 1].entries()[i].origin()
                                    &&& exists|m: &mut (dyn Element<'a> + 'a), further: Vec<ElemHandle>|
                                        {
                                            &&& &*m == &*trail[k].entries()[i].widget()
                                            &&& &*final(m) == &*trail[k + 1].entries()[i].widget()
                                            &&& #[trigger] alerted(m, further)
                                        }
                                }
                    },
                delivered == 0 ==> {
                    &&& trail.len() == 1
                    &&& pending@ == targets@.subrange(passed, targets@.len() as int)
                    &&& forall|before: int|
                        0 <= before < passed ==> !old(self).live(#[trigger] targets@[before])
                },
                delivered > 0 ==> {
                    &&& 0 <= first < targets@.len()
                    &&& old(self).live(targets@[first])
                    &&& forall|before: int|
                        0 <= before < first ==> !old(self).live(#[trigger] targets@[before])
                    &&& trail.len() >= 2
                    &&& trail[0].same_but(trail[1], targets@[first].index() as int)
                    &&& exists|m: &mut (dyn Element<'a> + 'a), further: Vec<ElemHandle>|
                        {
                            &&& &*m == &*trail[0].entries()[targets@[first].index() as int].widget()
                            &&& &*final(m) == &*trail[1].entries()[targets@[first].index()
                                as int].widget()
                            &&& #[trigger] alerted(m, further)
                        }
                },
            decreases ALERT_LIMIT - delivered, pending.len(),
        {
            match pending.pop_front() {
                Some(target) => {
                    match self.resolves(target) {
                        Some(index) => {
                            let ghost before = *self;
                            let ghost walked = trail;
                            let further = self.elems[index].alert();
                            proof {
                                assert forall|j: int| 0 <= j < self.entries().len() implies (
                                #[trigger] self.entries()[j]).links().within(
                                    self.entries().len() as int,
                                ) by {
                                    assert(before.entries()[j].links().within(
                                        before.entries().len() as int,
                                    ));
                                }
                                assert(before.same_but(*self, index as int));
                                trail = walked.push(*self);
                                if delivered == 0 {
                                    assert(target == targets@[passed]);
                                    first = passed;
                                }
                                assert forall|k: int|
                                    #![trigger trail[k]]
                                    0 <= k < trail.len() - 1 implies {
                                    &&& trail[k].focused() == trail[k + 1].focused()
                                    &&& exists|i: int|
                                {
                                    &&& 0 <= i < trail[k].entries().len()
                                    &&& trail[k].same_but(trail[k + 1], i)
                                    &&& (#[trigger] trail[k].entries()[i]).origin() == trail[k
                                        + 1].entries()[i].origin()
                                    &&& exists|m: &mut (dyn Element<'a> + 'a), further: Vec<ElemHandle>|
                                        {
                                            &&& &*m == &*trail[k].entries()[i].widget()
                                            &&& &*final(m) == &*trail[k + 1].entries()[i].widget()
                                            &&& #[trigger] alerted(m, further)
                                        }
                                }
                                } by {
                                    if k < walked.len() - 1 {
                                        assert(trail[k] == walked[k]);
                                        assert(trail[k + 1] == walked[k + 1]);
                                    } else {
                                        assert(trail[k] == before);
                                        assert(trail[k + 1] == *self);
                                        assert(trail[k].entries()[index as int].origin()
                                            == trail[k + 1].entries()[index as int].origin());
                                    }
                                }
                            }
                            delivered = delivered + 1;
                            enqueue(&mut pending, &further);
                        },
                        None => {
                            proof {
                                if delivered == 0 {
                                    assert(target == targets@[passed]);
                                    assert(pending@ =~= targets@.subrange(
                                        passed + 1,
                                        targets@.len() as int,
                                    ));
                                    passed = passed + 1;
                                }
                            }
                        },
                    }
                },
                None => {},
            }
        }
        proof {
            if delivered == 0 {
                assert(passed == targets@.len());
            }
            assert(trail.len() >= 1);
        }
    }

    /// Acts on the answer that the widget in focus gave to an input, and
    /// gives the answer of the container; see [`Grid::resolved`].
    #[verifier::rlimit(60)]
    #[verifier::spinoff_prover]
    pub fn resolve(&mut self, verdict: Response) -> (r: Response)
        requires
            old(self).wf(),
        ensures
            final(self).wf(),
            Grid::resolved(*old(self), verdict, *final(self), r),
            verdict.heading() matches Some(direction) ==> (old(self).neighbor(
                direction,
            ) matches Some(next) ==> exists|m: &mut (dyn Element<'a> + 'a)|
                {
                    &&& &*m == &*old(self).entries()[next as int].widget()
                    &&& &*final(m) == &*final(self).entries()[next as int].widget()
                    &&& #[trigger] entered(m, direction.arrival())
                }),
            verdict matches Response::Alert(targets) ==> (
                exists|trail: Seq<Grid<'a>>|
                    {
                        &&& #[trigger] trail.len() >= 1
                        &&& trail[0] == *old(self)
                        &&& trail[trail.len() - 1] == *final(self)
                        &&& forall|k: int|
                            #![trigger trail[k]]
                            0 <= k < trail.len() - 1 ==> {
                                &&& trail[k].focused() == trail[k + 1].focused()
                                &&& exists|i: int|
                                    {
                                        &&& 0 <= i < trail[k].entries().len()
                                        &&& trail[k].same_but(trail[k + 1], i)
                                        &&& (#[trigger] trail[k].entries()[i]).origin() == trail[k
                                            + 1].entries()[i].origin()
                                        &&& exists|m: &mut (dyn Element<'a> + 'a), further: Vec<ElemHandle>|
                                            {
                                                &&& &*m == &*trail[k].entries()[i].widget()
                                                &&& &*final(m) == &*trail[k + 1].entries()[i].widget()
                                                &&& #[trigger] alerted(m, further)
                                            }
                                    }
                            }
                        &&& forall|j: int|
                            0 <= j < targets@.len() && old(self).live(#[trigger] targets@[j]) && (
                            forall|before: int|
                                0 <= before < j ==> !old(self).live(#[trigger] targets@[before]))
                                ==> {
                                &&& trail.len() >= 2
                                &&& trail[0].same_but(trail[1], targets@[j].index() as int)
                                &&& exists|m: &mut (dyn Element<'a> + 'a), further: Vec<ElemHandle>|
                                    {
                                        &&& &*m == &*trail[0].entries()[targets@[j].index() as int].widget()
                                        &&& &*final(m) == &*trail[1].entries()[targets@[j].index()
                                            as int].widget()
                                        &&& #[trigger] alerted(m, further)
                                    }
                            }
                    }),
    {
        match verdict {
            Response::MoveUp => self.move_up(),
            Response::MoveDown => self.move_down(),
            Response::MoveRight => self.move_right(),
            Response::MoveLeft => self.move_left(),
            Response::Alert(targets) => {
                self.alert_all(targets.as_slice());
                Response::Contained
            },
            Response::Nothing => Response::Nothing,
            Response::Contained => Response::Contained,
        }
    }

    /// Gives the focus to entry `to` and tells it through which edge.
    fn land(&mut self, to: usize, edge: Edge)
        requires
            old(self).wf(),
            to < 2,
        ensures
            final(self).wf(),
            final(self).focused() == to,
            old(self).same_but(*final(self), to as int),
            exists|m: &mut (dyn Element<'a> + 'a)|
                {
                    &&& &*m == &*old(self).entries()[to as int].widget()
                    &&& &*final(m) == &*final(self).entries()[to as int].widget()
                    &&& #[trigger] entered(m, edge)
                },
    {
        self.focus = to;
        self.elems[to].enter(edge);
    }
}

impl<'a> Element<'a> for Grid<'a> {
    /// A container is well formed if it is well wired and each of its
    /// widgets is well formed.
    open spec fn wf(&self) -> bool {
        &&& self.well_wired()
        &&& forall|i: int|
            0 <= i < self.entries().len() ==> (#[trigger] self.entries()[i]).widget().wf()
    }

    open spec fn drawn(&self, before: Raster, x: usize, y: usize, selected: bool) -> Raster {
        self.drawn_upto(before, x, y, selected, self.entries().len() as int)
    }

    /// Draws every entry, in the order in which they were added, each at
    /// its own place from (`x`, `y`). An entry is drawn as selected only if
    /// it has the focus and the container itself is selected.
    fn draw(&self, canvas: &mut Canvas, x: usize, y: usize, selected: bool) {
        let mut i: usize = 0;
        while i < self.elems.len()
            invariant
                self.wf(),
                i <= self.elems.len(),
                canvas@ == self.drawn_upto(old(canvas)@, x, y, selected, i as int),
                canvas@.width == old(canvas)@.width,
                canvas@.height == old(canvas)@.height,
            decreases self.elems.len() - i,
        {
            let entry = &self.elems[i];
            entry.elem.draw(
                canvas,
                x.saturating_add(entry.x),
                y.saturating_add(entry.y),
                selected && i == self.focus,
            );
            i = i + 1;
        }
    }

    /// Ends the frame of every entry: the widget of each entry is left as
    /// its own `advance` leaves it, and nothing else of the container
    /// changes.
    fn advance(&mut self)
        ensures
            final(self).focused() == old(self).focused(),
            old(self).same_layout(*final(self)),
            forall|i: int|
                #![trigger final(self).entries()[i]]
                0 <= i < old(self).entries().len() ==> {
                    &&& final(self).entries()[i].origin() == old(self).entries()[i].origin()
                    &&& final(self).entries()[i].links() == old(self).entries()[i].links()
                    &&& exists|m: &mut (dyn Element<'a> + 'a)|
                        {
                            &&& &*m == &*old(self).entries()[i].widget()
                            &&& &*final(m) == &*final(self).entries()[i].widget()
                            &&& #[trigger] advanced(m)
                        }
                },
    {
        let mut i: usize = 0;
        while i < self.elems.len()
            invariant
                self.wf(),
                self.focused() == old(self).focused(),
                old(self).same_layout(*self),
                i <= self.elems.len(),
                forall|j: int|
                    #![trigger self.entries()[j]]
                    i <= j < self.entries().len() ==> self.entries()[j] == old(self).entries()[j],
                forall|j: int|
                    #![trigger self.entries()[j]]
                    0 <= j < i ==> exists|m: &mut (dyn Element<'a> + 'a)|
                        {
                            &&& &*m == &*old(self).entries()[j].widget()
                            &&& &*final(m) == &*self.entries()[j].widget()
                            &&& #[trigger] advanced(m)
                        },
            decreases self.elems.len() - i,
        {
            let ghost before = *self;
            self.elems[i].advance();
            proof {
                assert forall|j: int| 0 <= j < self.entries().len() implies (
                #[trigger] self.entries()[j]).links().within(self.entries().len() as int) by {
                    assert(before.entries()[j].links().within(before.entries().len() as int));
                }
            }
            i = i + 1;
        }
        assert forall|k: int|
            #![trigger self.entries()[k]]
            0 <= k < old(self).entries().len() implies exists|m: &mut (dyn Element<'a> + 'a)|
            {
                &&& &*m == &*old(self).entries()[k].widget()
                &&& &*final(m) == &*self.entries()[k].widget()
                &&& #[trigger] advanced(m)
            } by {
            let entry = self.entries()[k];
        }
    }

    /// Draws every entry as `draw` does, and ends the frame of each.
    fn draw_advance(&mut self, canvas: &mut Canvas, x: usize, y: usize, selected: bool)
        ensures
            final(self).focused() == old(self).focused(),
            old(self).same_layout(*final(self)),
    {
        let mut i: usize = 0;
        while i < self.elems.len()
            invariant
                self.wf(),
                self.focused() == old(self).focused(),
                old(self).same_layout(*self),
                i <= self.elems.len(),
                forall|j: int| i <= j < self.entries().len() ==> self.entries()[j] == old(
                    self,
                ).entries()[j],
                canvas@ == old(self).drawn_upto(old(canvas)@, x, y, selected, i as int),
                canvas@.width == old(canvas)@.width,
                canvas@.height == old(canvas)@.height,
            decreases self.elems.len() - i,
        {
            let ghost before = *self;
            let at_x: usize = x.saturating_add(self.elems[i].x);
            let at_y: usize = y.saturating_add(self.elems[i].y);
            let chosen = selected && i == self.focus;
            self.elems[i].elem.draw_advance(canvas, at_x, at_y, chosen);
            proof {
                assert forall|j: int| 0 <= j < self.entries().len() implies (
                #[trigger] self.entries()[j]).links().within(self.entries().len() as int) by {
                    assert(before.entries()[j].links().within(before.entries().len() as int));
                }
            }
            i = i + 1;
        }
    }

    /// Hands the input to the widget in focus and acts on its answer, as
    /// [`Grid::resolved`] says.
    fn respond(&mut self, input: char) -> (r: Response)
        ensures
            Grid::responded(*old(self), *final(self), r),
            exists|mid: Grid<'a>, verdict: Response, m: &mut (dyn Element<'a> + 'a)|
                {
                    &&& old(self).same_but(mid, old(self).focused() as int)
                    &&& mid.focused() == old(self).focused()
                    &&& &*m == &*old(self).entries()[old(self).focused() as int].widget()
                    &&& &*final(m) == &*mid.entries()[old(self).focused() as int].widget()
                    &&& #[trigger] responded(m, input, verdict)
                    &&& #[trigger] Grid::resolved(mid, verdict, *final(self), r)
                },
    {
        let verdict = self.elems[self.focus].respond(input);
        let ghost mid = *self;
        let ghost given = verdict;
        proof {
            assert forall|j: int| 0 <= j < self.entries().len() implies (
            #[trigger] self.entries()[j]).links().within(self.entries().len() as int) by {
                assert(old(self).entries()[j].links().within(old(self).entries().len() as int));
            }
        }
        let r = self.resolve(verdict);
        assert(Grid::resolved(mid, given, *self, r));
        r
    }

    /// The focus has entered the container from above: the first entry
    /// gets the focus and is told so.
    fn enter_top(&mut self)
        ensures
            final(self).focused() == TL_IDX,
            old(self).same_but(*final(self), TL_IDX as int),
            exists|m: &mut (dyn Element<'a> + 'a)|
                {
                    &&& &*m == &*old(self).entries()[TL_IDX as int].widget()
                    &&& &*final(m) == &*final(self).entries()[TL_IDX as int].widget()
                    &&& #[trigger] entered(m, Edge::Top)
                },
    {
        self.land(TL_IDX, Edge::Top)
    }

    /// The focus has entered the container from below: the second entry
    /// gets the focus and is told so.
    fn enter_bottom(&mut self)
        ensures
            final(self).focused() == BR_IDX,
            old(self).same_but(*final(self), BR_IDX as int),
            exists|m: &mut (dyn Element<'a> + 'a)|
                {
                    &&& &*m == &*old(self).entries()[BR_IDX as int].widget()
                    &&& &*final(m) == &*final(self).entries()[BR_IDX as int].widget()
                    &&& #[trigger] entered(m, Edge::Bottom)
                },
    {
        self.land(BR_IDX, Edge::Bottom)
    }

    /// The focus has entered the container from the right: the second
    /// entry gets the focus and is told so.
    fn enter_right(&mut self)
        ensures
            final(self).focused() == BR_IDX,
            old(self).same_but(*final(self), BR_IDX as int),
            exists|m: &mut (dyn Element<'a> + 'a)|
                {
                    &&& &*m == &*old(self).entries()[BR_IDX as int].widget()
                    &&& &*final(m) == &*final(self).entries()[BR_IDX as int].widget()
                    &&& #[trigger] entered(m, Edge::Right)
                },
    {
        self.land(BR_IDX, Edge::Right)
    }

    /// The focus has entered the container from the left: the first entry
    /// gets the focus and is told so.
    fn enter_left(&mut self)
        ensures
            final(self).focused() == TL_IDX,
            old(self).same_but(*final(self), TL_IDX as int),
            exists|m: &mut (dyn Element<'a> + 'a)|
                {
                    &&& &*m == &*old(self).entries()[TL_IDX as int].widget()
                    &&& &*final(m) == &*final(self).entries()[TL_IDX as int].widget()
                    &&& #[trigger] entered(m, Edge::Left)
                },
    {
        self.land(TL_IDX, Edge::Left)
    }
}

} // verus!
