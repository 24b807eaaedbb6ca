//! The widget contract: what every node of the interface can do, and what
//! it may answer to an input symbol.

use vstd::prelude::*;
use crate::canvas::Canvas;
use crate::grid::ElemHandle;
use crate::raster::Raster;

verus! {

/// The input symbol that asks to go up.
pub const UP: char = 'k';

/// The input symbol that asks to go down.
pub const DOWN: char = 'j';

/// The input symbol that asks to go right.
pub const RIGHT: char = 'l';

/// The input symbol that asks to go left.
pub const LEFT: char = 'h';

/// One of the four ways the focus can move.
#[derive(Clone, Copy, Debug, PartialEq, Eq)]
pub enum Direction {
    Up,
    Down,
    Left,
    Right,
}

/// One of the four edges through which the focus can enter a widget.
#[derive(Clone, Copy, Debug, PartialEq, Eq)]
pub enum Edge {
    Top,
    Bottom,
    Left,
    Right,
}

/// What a widget answers to an input symbol.
#[derive(Debug, PartialEq, Eq)]
pub enum Response {
    /// The widget did not recognise the input.
    Nothing,
    /// The widget dealt with the input; nothing more is to be done.
    Contained,
    /// The widget asks its container to move the focus up.
    MoveUp,
    /// The widget asks its container to move the focus down.
    MoveDown,
    /// The widget asks its container to move the focus right.
    MoveRight,
    /// The widget asks its container to move the focus left.
    MoveLeft,
    /// The widget asks its container to alert the widgets named.
    Alert(Vec<ElemHandle>),
}

impl Direction {
    /// The direction that an input symbol asks for, if it is one of the
    /// four directional symbols.
    pub open spec fn of(input: char) -> Option<Direction> {
        if input == UP {
            Some(Direction::Up)
        } else if input == DOWN {
            Some(Direction::Down)
        } else if input == RIGHT {
            Some(Direction::Right)
        } else if input == LEFT {
            Some(Direction::Left)
        } else {
            None
        }
    }

    /// The edge through which a widget is entered by a move in this
    /// direction: the one that faces where the focus comes from. Moving
    /// down enters through the top, moving right through the left.
    pub open spec fn arrival(self) -> Edge {
        match self {
            Direction::Up => Edge::Bottom,
            Direction::Down => Edge::Top,
            Direction::Left => Edge::Right,
            Direction::Right => Edge::Left,
        }
    }

    /// The opposite direction.
    pub open spec fn reverse(self) -> Direction {
        match self {
            Direction::Up => Direction::Down,
            Direction::Down => Direction::Up,
            Direction::Left => Direction::Right,
            Direction::Right => Direction::Left,
        }
    }

    /// The response that asks for a move in this direction.
    pub open spec fn request(self) -> Response {
        match self {
            Direction::Up => Response::MoveUp,
            Direction::Down => Response::MoveDown,
            Direction::Left => Response::MoveLeft,
            Direction::Right => Response::MoveRight,
        }
    }

    /// The direction that `input` asks for, if any.
    pub fn from_input(input: char) -> (r: Option<Direction>)
        ensures
            r == Direction::of(input),
    {
        if input == UP {
            Some(Direction::Up)
        } else if input == DOWN {
            Some(Direction::Down)
        } else if input == RIGHT {
            Some(Direction::Right)
        } else if input == LEFT {
            Some(Direction::Left)
        } else {
            None
        }
    }

    /// The opposite direction.
    pub fn reversed(self) -> (r: Direction)
        ensures
            r == self.reverse(),
    {
        match self {
            Direction::Up => Direction::Down,
            Direction::Down => Direction::Up,
            Direction::Left => Direction::Right,
            Direction::Right => Direction::Left,
        }
    }

    /// The edge through which a move in this direction enters.
    pub fn entry_edge(self) -> (e: Edge)
        ensures
            e == self.arrival(),
    {
        match self {
            Direction::Up => Edge::Bottom,
            Direction::Down => Edge::Top,
            Direction::Left => Edge::Right,
            Direction::Right => Edge::Left,
        }
    }

    /// The response that asks for a move in this direction.
    pub fn into_request(self) -> (r: Response)
        ensures
            r == self.request(),
    {
        match self {
            Direction::Up => Response::MoveUp,
            Direction::Down => Response::MoveDown,
            Direction::Left => Response::MoveLeft,
            Direction::Right => Response::MoveRight,
        }
    }
}

impl Response {
    /// The direction that the response asks to move in, if it is a move
    /// request.
    pub open spec fn heading(self) -> Option<Direction> {
        match self {
            Response::MoveUp => Some(Direction::Up),
            Response::MoveDown => Some(Direction::Down),
            Response::MoveLeft => Some(Direction::Left),
            Response::MoveRight => Some(Direction::Right),
            _ => None,
        }
    }

    /// The direction that the response asks to move in, if any.
    pub fn direction(&self) -> (r: Option<Direction>)
        ensures
            r == self.heading(),
    {
        match self {
            Response::MoveUp => Some(Direction::Up),
            Response::MoveDown => Some(Direction::Down),
            Response::MoveLeft => Some(Direction::Left),
            Response::MoveRight => Some(Direction::Right),
            _ => None,
        }
    }
}

/// What a widget without input handling of its own answers: a move request
/// to a directional symbol, and that it did not recognise anything else.
pub open spec fn default_verdict(input: char) -> Response {
    match Direction::of(input) {
        Some(direction) => direction.request(),
        None => Response::Nothing,
    }
}

/// The answer of a widget without input handling of its own.
pub fn default_response(input: char) -> (r: Response)
    ensures
        r == default_verdict(input),
{
    match Direction::from_input(input) {
        Some(direction) => direction.into_request(),
        None => Response::Nothing,
    }
}

/// A position moved by an offset. A position that would lie beyond the
/// largest number is held at the largest number, which is a column and a
/// row that no canvas has.
pub open spec fn shifted(at: usize, by: usize) -> usize {
    if at + by > usize::MAX {
        usize::MAX
    } else {
        (at + by) as usize
    }
}

/// The widget behind `m` was told that the focus has entered it through
/// `edge`: it has changed as the hook of that edge, and no other, can
/// change it.
pub open spec fn entered<'a, E: Element<'a> + ?Sized>(m: &mut E, edge: Edge) -> bool {
    match edge {
        Edge::Top => call_ensures(<E as Element<'a>>::enter_top, (m,), ()),
        Edge::Bottom => call_ensures(<E as Element<'a>>::enter_bottom, (m,), ()),
        Edge::Left => call_ensures(<E as Element<'a>>::enter_left, (m,), ()),
        Edge::Right => call_ensures(<E as Element<'a>>::enter_right, (m,), ()),
    }
}

/// The frame of the widget behind `m` was ended: the widget has changed as
/// its `advance` can change it.
pub open spec fn advanced<'a, E: Element<'a> + ?Sized>(m: &mut E) -> bool {
    call_ensures(<E as Element<'a>>::advance, (m,), ())
}

/// The widget behind `m` was handed `input` and gave `answer`: the widget
/// has changed, and has answered, as its `respond` can.
pub open spec fn responded<'a, E: Element<'a> + ?Sized>(
    m: &mut E,
    input: char,
    answer: Response,
) -> bool {
    call_ensures(<E as Element<'a>>::respond, (m, input), answer)
}

/// The widget behind `m` was alerted and named `further`: the widget has
/// changed, and has answered, as its `alert` can.
pub open spec fn alerted<'a, E: Element<'a> + ?Sized>(m: &mut E, further: Vec<ElemHandle>) -> bool {
    call_ensures(<E as Element<'a>>::alert, (m,), further)
}

/// A node of the interface.
///
/// A widget owns its state and knows nothing of its siblings or of the
/// container that holds it. Only `draw` has to be written; every other
/// method has a default that does nothing, but for `respond`, which by
/// default turns the four directional symbols into move requests.
///
/// The contract fixes what `draw` leaves on the canvas, by the name
/// `drawn`, and that a widget that is well formed stays so. What the other
/// methods do to a widget is the widget's own affair: of a widget behind
/// this trait nothing more is known after such a call. A widget whose
/// methods are the defaults is known to be left unchanged by them.
pub trait Element<'a> {
    /// What the widget needs to hold of itself in order to work. Every
    /// method asks for it and keeps it.
    open spec fn wf(&self) -> bool {
        true
    }

    /// What the canvas holds after the widget has drawn itself at
    /// (`x`, `y`), selected or not, onto a canvas that held `before`.
    ///
    /// A widget that is to be verified says here what it draws. For a
    /// widget that does not say, the name stands for nothing in particular,
    /// and nothing can be proved of what it draws.
    open spec fn drawn(&self, before: Raster, x: usize, y: usize, selected: bool) -> Raster {
        arbitrary()
    }

    /// Draws the widget at (`x`, `y`). Drawing does not change the widget
    /// nor the size of the canvas.
    fn draw(&self, canvas: &mut Canvas, x: usize, y: usize, selected: bool)
        requires
            self.wf(),
        ensures
            final(canvas)@ == self.drawn(old(canvas)@, x, y, selected),
            final(canvas)@.width == old(canvas)@.width,
            final(canvas)@.height == old(canvas)@.height,
    ;

    /// Ends a frame.
    fn advance(&mut self)
        requires
            old(self).wf(),
        ensures
            final(self).wf(),
        default_ensures
            &*final(self) == &*old(self),
    {
    }

    /// Draws the widget, then ends the frame.
    fn draw_advance(&mut self, canvas: &mut Canvas, x: usize, y: usize, selected: bool)
        requires
            old(self).wf(),
        ensures
            final(self).wf(),
            final(canvas)@ == old(self).drawn(old(canvas)@, x, y, selected),
            final(canvas)@.width == old(canvas)@.width,
            final(canvas)@.height == old(canvas)@.height,
    {
        self.draw(canvas, x, y, selected);
        self.advance()
    }

    /// Answers one input symbol.
    fn respond(&mut self, input: char) -> (r: Response)
        requires
            old(self).wf(),
        ensures
            final(self).wf(),
        default_ensures
            r == default_verdict(input),
            &*final(self) == &*old(self),
    {
        default_response(input)
    }

    /// The focus has entered the widget through its top edge.
    fn enter_top(&mut self)
        requires
            old(self).wf(),
        ensures
            final(self).wf(),
        default_ensures
            &*final(self) == &*old(self),
    {
    }

    /// The focus has entered the widget through its bottom edge.
    fn enter_bottom(&mut self)
        requires
            old(self).wf(),
        ensures
            final(self).wf(),
        default_ensures
            &*final(self) == &*old(self),
    {
    }

    /// The focus has entered the widget through its right edge.
    fn enter_right(&mut self)
        requires
            old(self).wf(),
        ensures
            final(self).wf(),
        default_ensures
            &*final(self) == &*old(self),
    {
    }

    /// The focus has entered the widget through its left edge.
    fn enter_left(&mut self)
        requires
            old(self).wf(),
        ensures
            final(self).wf(),
        default_ensures
            &*final(self) == &*old(self),
    {
    }

    /// Another widget has named this one in an alert. The widgets named in
    /// the answer are alerted in turn.
    fn alert(&mut self) -> (further: Vec<ElemHandle>)
        requires
            old(self).wf(),
        ensures
            final(self).wf(),
        default_ensures
            further@.len() == 0,
            &*final(self) == &*old(self),
    {
        Vec::new()
    }
}

} // verus!
