//! A widget that shows a piece of text.

use vstd::prelude::*;
use crate::canvas::{Canvas, TextStyles};
use crate::element::Element;
use crate::raster::Raster;

verus! {

/// A piece of text, shown in inverse video while it is selected.
pub struct Text<'a> {
    inner: &'a str,
}

impl<'a> Text<'a> {
    /// The text that the widget shows.
    pub closed spec fn content(&self) -> Seq<char> {
        self.inner@
    }

    /// A widget that shows `text`.
    pub fn new(text: &'a str) -> (r: Text<'a>)
        ensures
            r.content() == text@,
    {
        Text { inner: text }
    }
}

impl<'a> Element<'a> for Text<'a> {
    open spec fn drawn(&self, before: Raster, x: usize, y: usize, selected: bool) -> Raster {
        before.with_text(
            self.content(),
            x as int,
            y as int,
            TextStyles::new().inverse(selected),
        )
    }

    fn draw(&self, canvas: &mut Canvas, x: usize, y: usize, selected: bool) {
        proof {
            canvas@.lemma_text_keeps_size(
                self.content(),
                0,
                x as int,
                y as int,
                TextStyles::new().inverse(selected),
            );
        }
        canvas.text(self.inner, x, y, TextStyles::new().inverse(selected))
    }
}

} // verus!
