use ui::canvas::{Canvas, TextStyles};
use ui::style::{BOLD_OFF, BOLD_ON};
use ui::util::{padded_line, TextScroller, Updater};
use ui::{ElemHandle, Element, Grid, Response, Text, DOWN, LEFT, RIGHT, UP};

struct Mute;

impl<'a> Element<'a> for Mute {
    fn draw(&self, canvas: &mut Canvas, x: usize, y: usize, _selected: bool) {
        canvas.text("m", x, y, TextStyles::new())
    }

    fn respond(&mut self, input: char) -> Response {
        match input {
            'c' => Response::Contained,
            'a' => Response::Alert(Vec::new()),
            'u' => Response::MoveUp,
            _ => Response::Nothing,
        }
    }
}

fn row(c: &Canvas, y: usize) -> String {
    (0..c.width()).map(|x| c.get(x, y).unwrap().ch).collect()
}

fn some_handle() -> ElemHandle {
    let grid = Grid::with_capacity(Box::new(Mute), 0, 0, Box::new(Mute), 0, 0, 0);
    grid.top_left()
}

#[test]
fn a_new_decorator_draws() {
    let u = Updater::new(Text::new("hi"));
    assert!(u.updated());
    let mut c = Canvas::new(4, 1, '.');
    u.draw(&mut c, 1, 0, false);
    assert_eq!(row(&c, 0), ".hi.");
}

#[test]
fn after_a_frame_the_decorator_draws_nothing() {
    let mut u = Updater::new(Text::new("hi"));
    u.advance();
    assert!(!u.updated());
    let mut c = Canvas::new(4, 1, '.');
    let before = c.render();
    u.draw(&mut c, 1, 0, true);
    assert_eq!(c.render(), before);
    u.draw_advance(&mut c, 1, 0, true);
    assert_eq!(c.render(), before);
}

#[test]
fn an_answer_makes_the_decorator_draw_again() {
    let mut u = Updater::new(Text::new("hi"));
    u.advance();
    assert_eq!(u.respond(RIGHT), Response::MoveRight);
    assert!(u.updated());
    let mut c = Canvas::new(4, 1, '.');
    u.draw(&mut c, 1, 0, false);
    assert_eq!(row(&c, 0), ".hi.");
    for input in ['c', 'a', 'u'] {
        let mut m = Updater::new(Mute);
        m.advance();
        assert!(!m.updated());
        assert_ne!(m.respond(input), Response::Nothing);
        assert!(m.updated());
        let mut c = Canvas::new(2, 1, '.');
        m.draw(&mut c, 0, 0, false);
        assert_eq!(row(&c, 0), "m.");
    }
}

#[test]
fn an_input_that_is_not_recognised_leaves_the_decorator_idle() {
    let mut u = Updater::new(Text::new("hi"));
    u.advance();
    assert_eq!(u.respond('x'), Response::Nothing);
    assert!(!u.updated());
    let mut c = Canvas::new(4, 1, '.');
    u.draw(&mut c, 1, 0, false);
    assert_eq!(row(&c, 0), "....");
    let mut fresh = Updater::new(Text::new("hi"));
    assert_eq!(fresh.respond('x'), Response::Nothing);
    assert!(fresh.updated());
}

#[test]
fn the_decorator_notes_answers_as_they_are() {
    let mut u = Updater::new(Mute);
    u.advance();
    assert_eq!(u.note(Response::Nothing), Response::Nothing);
    assert!(!u.updated());
    assert_eq!(u.note(Response::MoveLeft), Response::MoveLeft);
    assert!(u.updated());
    assert_eq!(u.note(Response::Nothing), Response::Nothing);
    assert!(u.updated());
    u.advance();
    assert_eq!(u.note(Response::Contained), Response::Contained);
    assert!(u.updated());
    u.advance();
    let h = some_handle();
    assert_eq!(u.note(Response::Alert(vec![h])), Response::Alert(vec![h]));
    assert!(u.updated());
}

#[test]
fn entering_and_alerting_set_the_mark() {
    let mut u = Updater::new(Mute);
    u.advance();
    u.enter_top();
    assert!(u.updated());
    u.advance();
    u.enter_bottom();
    assert!(u.updated());
    u.advance();
    u.enter_left();
    assert!(u.updated());
    u.advance();
    u.enter_right();
    assert!(u.updated());
    u.advance();
    assert!(u.alert().is_empty());
    assert!(u.updated());
}

#[test]
fn the_scroller_cuts_its_text_into_lines() {
    let s = TextScroller::new("a\nbb\r\nc\n", 3, 5);
    assert_eq!(s.line_count(), 3);
    assert_eq!(s.window(), 0);
    let mut c = Canvas::new(4, 4, '.');
    s.draw(&mut c, 0, 0, false);
    assert_eq!(row(&c, 0), "a...");
    assert_eq!(row(&c, 1), "bb..");
    assert_eq!(row(&c, 2), "c...");
    assert_eq!(row(&c, 3), "....");
    assert_eq!(TextScroller::new("", 3, 5).line_count(), 0);
    assert_eq!(TextScroller::new("one", 3, 5).line_count(), 1);
    assert_eq!(TextScroller::new("\n\n", 3, 5).line_count(), 2);
}

#[test]
fn the_scroller_scrolls_as_far_as_the_text_goes() {
    let mut s = TextScroller::new("a\nbb\nc\ndd\ng\nh\ni", 3, 5);
    assert_eq!(s.line_count(), 7);
    assert_eq!(s.scroll_up(), Response::MoveUp);
    assert_eq!(s.window(), 0);
    assert_eq!(s.scroll_down(), Response::Contained);
    assert_eq!(s.window(), 1);
    assert_eq!(s.scroll_down(), Response::Contained);
    assert_eq!(s.window(), 2);
    assert_eq!(s.scroll_down(), Response::MoveDown);
    assert_eq!(s.window(), 2);
    assert_eq!(s.scroll_up(), Response::Contained);
    assert_eq!(s.window(), 1);
    assert_eq!(s.scroll_up(), Response::Contained);
    assert_eq!(s.scroll_up(), Response::MoveUp);
    assert_eq!(s.window(), 0);
    let mut short = TextScroller::new("a\nb", 3, 5);
    assert_eq!(short.scroll_down(), Response::MoveDown);
    assert_eq!(short.scroll_up(), Response::MoveUp);
    let mut exact = TextScroller::new("a\nb", 3, 2);
    assert_eq!(exact.scroll_down(), Response::MoveDown);
    let mut huge = TextScroller::new("a\nb", 3, usize::MAX);
    assert_eq!(huge.scroll_down(), Response::MoveDown);
    let mut flat = TextScroller::new("a\nb", 3, 0);
    assert_eq!(flat.scroll_down(), Response::Contained);
    assert_eq!(flat.scroll_down(), Response::Contained);
    assert_eq!(flat.scroll_down(), Response::MoveDown);
    assert_eq!(flat.window(), 2);
}

#[test]
fn the_scroller_answers_the_four_symbols() {
    let mut s = TextScroller::from_lines(vec!["a", "b", "c"], 3, 2);
    assert_eq!(s.respond(UP), Response::MoveUp);
    assert_eq!(s.respond(DOWN), Response::Contained);
    assert_eq!(s.window(), 1);
    assert_eq!(s.respond(DOWN), Response::MoveDown);
    assert_eq!(s.respond(LEFT), Response::MoveLeft);
    assert_eq!(s.respond(RIGHT), Response::MoveRight);
    assert_eq!(s.respond('x'), Response::Nothing);
    assert_eq!(s.window(), 1);
    assert_eq!(s.respond(UP), Response::Contained);
    assert_eq!(s.window(), 0);
}

#[test]
fn the_scroller_shows_its_window_row_by_row() {
    let mut s = TextScroller::new("abcdefg\nhijk\nlmnop\nqrstuv\nwxyz", 6, 3);
    let mut c = Canvas::new(10, 5, '.');
    s.draw(&mut c, 1, 1, true);
    assert_eq!(row(&c, 0), "..........");
    assert_eq!(row(&c, 1), ".abcdef...");
    assert_eq!(row(&c, 2), ".hijk  ...");
    assert_eq!(row(&c, 3), ".lmnop ...");
    assert_eq!(row(&c, 4), "..........");
    assert_eq!(s.respond(DOWN), Response::Contained);
    s.draw(&mut c, 1, 1, true);
    assert_eq!(row(&c, 1), ".hijk  ...");
    assert_eq!(row(&c, 2), ".lmnop ...");
    assert_eq!(row(&c, 3), ".qrstuv...");
    assert_eq!(s.respond(DOWN), Response::Contained);
    assert_eq!(s.respond(DOWN), Response::MoveDown);
    s.draw(&mut c, 6, 3, false);
    assert_eq!(row(&c, 3), ".qrstulmno");
    assert_eq!(row(&c, 4), "......qrst");
    for y in 0..5 {
        for x in 0..10 {
            assert_eq!(c.get(x, y).unwrap().flags, 0);
        }
    }
    let mut far = Canvas::new(3, 3, '.');
    s.draw(&mut far, 0, usize::MAX - 1, false);
    s.draw(&mut far, usize::MAX, 0, false);
    assert_eq!(far.render(), Canvas::new(3, 3, '.').render());
}

#[test]
fn a_short_text_is_shown_as_it_is() {
    let s = TextScroller::new("abcdef\ngh", 3, 4);
    let mut c = Canvas::new(8, 3, '.');
    s.draw(&mut c, 1, 0, false);
    assert_eq!(row(&c, 0), ".abcdef.");
    assert_eq!(row(&c, 1), ".gh.....");
    assert_eq!(row(&c, 2), "........");
    let mut far = Canvas::new(3, 3, '.');
    s.draw(&mut far, 0, usize::MAX, false);
    assert_eq!(far.render(), Canvas::new(3, 3, '.').render());
}

#[test]
fn a_padded_line_has_its_length() {
    let mut c = Canvas::new(10, 3, '.');
    padded_line(&mut c, "ab", 1, 0, 5, '_', TextStyles::new().bold(true));
    assert_eq!(row(&c, 0), ".ab___....");
    assert_eq!(c.get(1, 0).unwrap().flags, BOLD_ON);
    assert_eq!(c.get(5, 0).unwrap().flags, BOLD_OFF);
    for x in [0, 2, 3, 4, 6, 7, 8, 9] {
        assert_eq!(c.get(x, 0).unwrap().flags, 0);
    }
    padded_line(&mut c, "abcdefgh", 1, 1, 5, '_', TextStyles::new().bold(true));
    assert_eq!(row(&c, 1), ".abcde....");
    assert_eq!(c.get(1, 1).unwrap().flags, BOLD_ON);
    assert_eq!(c.get(5, 1).unwrap().flags, BOLD_OFF);
    padded_line(&mut c, "", 2, 2, 3, '_', TextStyles::new().bold(true));
    assert_eq!(row(&c, 2), "..___.....");
    assert_eq!(c.get(2, 2).unwrap().flags, BOLD_ON);
    assert_eq!(c.get(4, 2).unwrap().flags, BOLD_OFF);
    assert_eq!(row(&c, 0), ".ab___....");
}

#[test]
fn a_padded_line_is_cut_at_the_right_edge() {
    let mut c = Canvas::new(6, 2, '.');
    padded_line(&mut c, "abc", 4, 0, 5, '_', TextStyles::new().bold(true));
    assert_eq!(row(&c, 0), "....ab");
    assert_eq!(c.get(4, 0).unwrap().flags, BOLD_ON);
    assert_eq!(c.get(5, 0).unwrap().flags, BOLD_OFF);
    padded_line(&mut c, "a", 3, 1, usize::MAX, '_', TextStyles::new());
    assert_eq!(row(&c, 1), "...a__");
    padded_line(&mut c, "z", 5, 1, 1, '_', TextStyles::new().bold(true));
    assert_eq!(c.get(5, 1).unwrap().ch, 'z');
    assert_eq!(c.get(5, 1).unwrap().flags, BOLD_ON | BOLD_OFF);
}

#[test]
fn a_padded_line_without_length_or_place_changes_nothing() {
    let mut c = Canvas::new(4, 2, '.');
    let before = c.render();
    padded_line(&mut c, "abc", 0, 0, 0, '_', TextStyles::new().bold(true));
    padded_line(&mut c, "abc", 4, 0, 3, '_', TextStyles::new().bold(true));
    padded_line(&mut c, "abc", 0, 2, 3, '_', TextStyles::new().bold(true));
    padded_line(&mut c, "abc", usize::MAX, usize::MAX, usize::MAX, '_', TextStyles::new());
    assert_eq!(c.render(), before);
}

#[test]
fn text_is_inverse_while_selected() {
    let t = Text::new("ab\nc");
    let mut c = Canvas::new(3, 2, '.');
    t.draw(&mut c, 0, 0, true);
    assert_eq!(c.render(), "\x1B[7mab\x1B[27m.\x1B[0m\n\x1B[7mc\x1B[27m..\x1B[0m\n");
    let mut plain = Canvas::new(3, 2, '.');
    t.draw(&mut plain, 0, 0, false);
    assert_eq!(plain.render(), "ab.\x1B[0m\nc..\x1B[0m\n");
    let mut t = Text::new("ab");
    assert_eq!(t.respond(UP), Response::MoveUp);
    assert_eq!(t.respond(DOWN), Response::MoveDown);
    assert_eq!(t.respond(LEFT), Response::MoveLeft);
    assert_eq!(t.respond(RIGHT), Response::MoveRight);
    assert_eq!(t.respond('x'), Response::Nothing);
    assert!(t.alert().is_empty());
}
