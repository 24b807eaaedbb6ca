use ui::canvas::{Canvas, Pixel, TextStyles};
use ui::style::{
    BOLD_OFF, BOLD_ON, INVERSE_OFF, INVERSE_ON, ITALICS_OFF, ITALICS_ON, UNDERLINE_OFF,
    UNDERLINE_ON,
};

fn cell(c: &Canvas, x: usize, y: usize) -> (char, u8) {
    let p = c.get(x, y).unwrap();
    (p.ch, p.flags)
}

fn untouched_but(c: &Canvas, filler: char, written: &[(usize, usize)]) -> bool {
    for y in 0..c.height() {
        for x in 0..c.width() {
            if !written.contains(&(x, y)) && cell(c, x, y) != (filler, 0) {
                return false;
            }
        }
    }
    true
}

#[test]
fn out_of_bounds_works() {
    let mut c = Canvas::new(10, 10, '#');
    c.text("foo", 12, 12, TextStyles::new().underline(true));
    println!("{}", c.render());
}

#[test]
fn overflowing_text_works() {
    let mut c = Canvas::new(10, 10, '#');
    c.text("foo", 8, 1, TextStyles::new().underline(true));
    println!("{}", c.render());
}

#[test]
fn newlines_work() {
    let mut c = Canvas::new(10, 10, '#');
    c.text("\nfoo\n\nbar\n", 1, 1, TextStyles::new().underline(true));
    println!("{}", c.render());
}

#[test]
fn lines_work() {
    let mut c = Canvas::new(10, 10, '#');
    c.line('-', 1, 2, 11, TextStyles::new().inverse(true));
    println!("{}", c.render());
}

#[test]
fn new_canvas_is_filled_and_plain() {
    let c = Canvas::new(4, 3, '.');
    assert_eq!(c.width(), 4);
    assert_eq!(c.height(), 3);
    assert!(untouched_but(&c, '.', &[]));
    assert!(c.get(4, 0).is_none());
    assert!(c.get(0, 3).is_none());
    assert_eq!(cell(&c, 3, 2), ('.', 0));
}

#[test]
fn text_inside_lands_cell_by_cell() {
    let mut c = Canvas::new(10, 10, '#');
    c.text("hey", 2, 3, TextStyles::new().bold(true));
    assert_eq!(cell(&c, 2, 3), ('h', BOLD_ON));
    assert_eq!(cell(&c, 3, 3), ('e', 0));
    assert_eq!(cell(&c, 4, 3), ('y', BOLD_OFF));
    assert!(untouched_but(&c, '#', &[(2, 3), (3, 3), (4, 3)]));
}

#[test]
fn single_character_takes_both_marks() {
    let mut c = Canvas::new(3, 3, '#');
    c.text("x", 1, 1, TextStyles::new().italics(true));
    assert_eq!(cell(&c, 1, 1), ('x', ITALICS_ON | ITALICS_OFF));
    assert!(untouched_but(&c, '#', &[(1, 1)]));
}

#[test]
fn text_that_starts_outside_changes_nothing() {
    let mut c = Canvas::new(10, 10, '#');
    let before = c.render();
    c.text("foo", 12, 12, TextStyles::new().underline(true));
    assert_eq!(c.render(), before);
    c.text("foo", 10, 0, TextStyles::new().underline(true));
    assert_eq!(c.render(), before);
    c.text("foo\nbar", 0, 10, TextStyles::new().underline(true));
    assert_eq!(c.render(), before);
    c.text("foo", usize::MAX, usize::MAX, TextStyles::new().bold(true));
    assert_eq!(c.render(), before);
    assert!(untouched_but(&c, '#', &[]));
}

#[test]
fn text_across_the_right_edge_is_cut_not_wrapped() {
    let mut c = Canvas::new(10, 10, '#');
    c.text("abcdef\nxy", 7, 0, TextStyles::new().underline(true));
    assert_eq!(cell(&c, 7, 0), ('a', UNDERLINE_ON));
    assert_eq!(cell(&c, 8, 0), ('b', 0));
    assert_eq!(cell(&c, 9, 0), ('c', UNDERLINE_OFF));
    assert_eq!(cell(&c, 7, 1), ('x', UNDERLINE_ON));
    assert_eq!(cell(&c, 8, 1), ('y', UNDERLINE_OFF));
    assert!(untouched_but(&c, '#', &[(7, 0), (8, 0), (9, 0), (7, 1), (8, 1)]));
}

#[test]
fn overflowing_text_keeps_what_fits() {
    let mut c = Canvas::new(10, 10, '#');
    c.text("foo", 8, 1, TextStyles::new().underline(true));
    assert_eq!(cell(&c, 8, 1), ('f', UNDERLINE_ON));
    assert_eq!(cell(&c, 9, 1), ('o', UNDERLINE_OFF));
    assert!(untouched_but(&c, '#', &[(8, 1), (9, 1)]));
}

#[test]
fn two_lines_of_text_are_two_runs() {
    let mut c = Canvas::new(10, 10, '#');
    c.text("ab\ncd", 1, 1, TextStyles::new().underline(true));
    assert_eq!(c.get(1, 1).unwrap().ch, 'a');
    assert_eq!(c.get(2, 1).unwrap().ch, 'b');
    assert_eq!(c.get(1, 2).unwrap().ch, 'c');
    assert_eq!(c.get(2, 2).unwrap().ch, 'd');
    assert_eq!(c.get(1, 1).unwrap().flags & UNDERLINE_ON, UNDERLINE_ON);
    assert_eq!(c.get(2, 2).unwrap().flags & UNDERLINE_OFF, UNDERLINE_OFF);
    assert_eq!(cell(&c, 1, 1), ('a', UNDERLINE_ON));
    assert_eq!(cell(&c, 2, 1), ('b', UNDERLINE_OFF));
    assert_eq!(cell(&c, 1, 2), ('c', UNDERLINE_ON));
    assert_eq!(cell(&c, 2, 2), ('d', UNDERLINE_OFF));
    assert!(untouched_but(&c, '#', &[(1, 1), (2, 1), (1, 2), (2, 2)]));
}

#[test]
fn empty_lines_take_no_marks() {
    let mut c = Canvas::new(10, 10, '#');
    c.text("\nfoo\n\nbar\n", 1, 1, TextStyles::new().underline(true));
    assert_eq!(cell(&c, 1, 2), ('f', UNDERLINE_ON));
    assert_eq!(cell(&c, 2, 2), ('o', 0));
    assert_eq!(cell(&c, 3, 2), ('o', UNDERLINE_OFF));
    assert_eq!(cell(&c, 1, 4), ('b', UNDERLINE_ON));
    assert_eq!(cell(&c, 2, 4), ('a', 0));
    assert_eq!(cell(&c, 3, 4), ('r', UNDERLINE_OFF));
    assert!(untouched_but(&c, '#', &[(1, 2), (2, 2), (3, 2), (1, 4), (2, 4), (3, 4)]));
}

#[test]
fn empty_text_changes_nothing() {
    let mut c = Canvas::new(4, 4, '#');
    c.text("", 1, 1, TextStyles::new().bold(true));
    c.text("\n\n", 1, 1, TextStyles::new().bold(true));
    assert!(untouched_but(&c, '#', &[]));
}

#[test]
fn text_below_the_bottom_edge_is_dropped() {
    let mut c = Canvas::new(4, 2, '#');
    c.text("a\nb\nc\nd", 0, 0, TextStyles::new().inverse(true));
    assert_eq!(cell(&c, 0, 0), ('a', INVERSE_ON | INVERSE_OFF));
    assert_eq!(cell(&c, 0, 1), ('b', INVERSE_ON | INVERSE_OFF));
    assert!(untouched_but(&c, '#', &[(0, 0), (0, 1)]));
}

#[test]
fn a_line_after_an_overflowing_line_starts_at_the_same_column() {
    let mut c = Canvas::new(5, 3, '#');
    c.text("123456789\nab\n987654321", 3, 0, TextStyles::new());
    assert_eq!(cell(&c, 3, 0), ('1', 0));
    assert_eq!(cell(&c, 4, 0), ('2', 0));
    assert_eq!(cell(&c, 3, 1), ('a', 0));
    assert_eq!(cell(&c, 4, 1), ('b', 0));
    assert_eq!(cell(&c, 3, 2), ('9', 0));
    assert_eq!(cell(&c, 4, 2), ('8', 0));
    assert!(untouched_but(&c, '#', &[(3, 0), (4, 0), (3, 1), (4, 1), (3, 2), (4, 2)]));
}

#[test]
fn marks_of_two_writes_add_up() {
    let mut c = Canvas::new(6, 1, '#');
    c.text("abcd", 0, 0, TextStyles::new().bold(true));
    c.text("xy", 0, 0, TextStyles::new().underline(true));
    assert_eq!(cell(&c, 0, 0), ('x', BOLD_ON | UNDERLINE_ON));
    assert_eq!(cell(&c, 1, 0), ('y', UNDERLINE_OFF));
    assert_eq!(cell(&c, 2, 0), ('c', 0));
    assert_eq!(cell(&c, 3, 0), ('d', BOLD_OFF));
    c.text("q", 3, 0, TextStyles::new());
    assert_eq!(cell(&c, 3, 0), ('q', BOLD_OFF));
}

#[test]
fn line_is_cut_at_the_right_edge() {
    let mut c = Canvas::new(10, 10, '#');
    c.line('-', 1, 2, 11, TextStyles::new().inverse(true));
    assert_eq!(cell(&c, 0, 2), ('#', 0));
    assert_eq!(cell(&c, 1, 2), ('-', INVERSE_ON));
    for x in 2..9 {
        assert_eq!(cell(&c, x, 2), ('-', 0));
    }
    assert_eq!(cell(&c, 9, 2), ('-', INVERSE_OFF));
    let row: Vec<(usize, usize)> = (1..10).map(|x| (x, 2)).collect();
    assert!(untouched_but(&c, '#', &row));
}

#[test]
fn line_inside_has_its_length() {
    let mut c = Canvas::new(10, 3, '#');
    c.line('=', 2, 1, 3, TextStyles::new().bold(true).italics(true));
    assert_eq!(cell(&c, 2, 1), ('=', BOLD_ON | ITALICS_ON));
    assert_eq!(cell(&c, 3, 1), ('=', 0));
    assert_eq!(cell(&c, 4, 1), ('=', BOLD_OFF | ITALICS_OFF));
    assert!(untouched_but(&c, '#', &[(2, 1), (3, 1), (4, 1)]));
    c.line('+', 9, 0, 1, TextStyles::new().inverse(true));
    assert_eq!(cell(&c, 9, 0), ('+', INVERSE_ON | INVERSE_OFF));
    c.line('+', 8, 2, usize::MAX, TextStyles::new());
    assert_eq!(cell(&c, 8, 2), ('+', 0));
    assert_eq!(cell(&c, 9, 2), ('+', 0));
}

#[test]
fn line_without_length_or_place_changes_nothing() {
    let mut c = Canvas::new(5, 5, '#');
    c.line('-', 1, 1, 0, TextStyles::new().inverse(true));
    c.line('-', 5, 1, 3, TextStyles::new().inverse(true));
    c.line('-', 1, 5, 3, TextStyles::new().inverse(true));
    c.line('-', usize::MAX, 0, usize::MAX, TextStyles::new().inverse(true));
    assert!(untouched_but(&c, '#', &[]));
}

#[test]
fn render_gives_rows_with_reset_and_break() {
    let c = Canvas::new(3, 2, '.');
    assert_eq!(c.render(), "...\x1B[0m\n...\x1B[0m\n");
    let none = Canvas::new(0, 0, '.');
    assert_eq!(none.render(), "");
    let narrow = Canvas::new(0, 2, '.');
    assert_eq!(narrow.render(), "\x1B[0m\n\x1B[0m\n");
    let flat = Canvas::new(2, 0, '.');
    assert_eq!(flat.render(), "");
}

#[test]
fn render_puts_codes_around_the_marked_cells() {
    let mut c = Canvas::new(3, 2, '.');
    c.text("ab", 0, 0, TextStyles::new().bold(true).underline(true));
    c.text("z", 2, 1, TextStyles::new().inverse(true).italics(true));
    assert_eq!(
        c.render(),
        "\x1B[1m\x1B[4mab\x1B[22m\x1B[24m.\x1B[0m\n..\x1B[3m\x1B[7mz\x1B[23m\x1B[27m\x1B[0m\n"
    );
}

#[test]
fn pixel_renders_codes_in_fixed_order() {
    let plain = Pixel { ch: 'a', flags: 0 };
    assert_eq!(plain.render(), "a");
    let all = Pixel { ch: 'a', flags: 0xff };
    assert_eq!(
        all.render(),
        "\x1B[1m\x1B[3m\x1B[4m\x1B[7ma\x1B[22m\x1B[23m\x1B[24m\x1B[27m"
    );
    assert_eq!(Pixel { ch: 'b', flags: BOLD_ON }.render(), "\x1B[1mb");
    assert_eq!(Pixel { ch: 'b', flags: ITALICS_ON }.render(), "\x1B[3mb");
    assert_eq!(Pixel { ch: 'b', flags: UNDERLINE_ON }.render(), "\x1B[4mb");
    assert_eq!(Pixel { ch: 'b', flags: INVERSE_ON }.render(), "\x1B[7mb");
    assert_eq!(Pixel { ch: 'b', flags: BOLD_OFF }.render(), "b\x1B[22m");
    assert_eq!(Pixel { ch: 'b', flags: ITALICS_OFF }.render(), "b\x1B[23m");
    assert_eq!(Pixel { ch: 'b', flags: UNDERLINE_OFF }.render(), "b\x1B[24m");
    assert_eq!(Pixel { ch: 'b', flags: INVERSE_OFF }.render(), "b\x1B[27m");
    let mut out = String::from("<");
    Pixel { ch: 'c', flags: INVERSE_ON | INVERSE_OFF }.render_into(&mut out);
    assert_eq!(out, "<\x1B[7mc\x1B[27m");
}

#[test]
fn pixel_marks_add_up() {
    let mut p = Pixel { ch: 'a', flags: 0 };
    p.set_styles_on(TextStyles::new().bold(true));
    assert_eq!(p.flags, BOLD_ON);
    p.set_styles_on(TextStyles::new().inverse(true));
    assert_eq!(p.flags, BOLD_ON | INVERSE_ON);
    p.set_styles_off(TextStyles::new().underline(true));
    assert_eq!(p.flags, BOLD_ON | INVERSE_ON | UNDERLINE_OFF);
    p.set_styles_off(TextStyles::new().bold(true).italics(true));
    assert_eq!(p.flags, BOLD_ON | INVERSE_ON | UNDERLINE_OFF | BOLD_OFF | ITALICS_OFF);
    p.set_styles_on(TextStyles::new());
    p.set_styles_off(TextStyles::new());
    assert_eq!(p.flags, BOLD_ON | INVERSE_ON | UNDERLINE_OFF | BOLD_OFF | ITALICS_OFF);
    assert_eq!(p.ch, 'a');
}

#[test]
fn styles_are_a_set() {
    let none = TextStyles::new();
    assert_eq!(none.raw_on_bits(), 0);
    assert_eq!(none.raw_off_bits(), 0);
    assert_eq!(none.bold(false).italics(false).underline(false).inverse(false), none);
    assert_eq!(none.bold(true).raw_on_bits(), BOLD_ON);
    assert_eq!(none.italics(true).raw_on_bits(), ITALICS_ON);
    assert_eq!(none.underline(true).raw_on_bits(), UNDERLINE_ON);
    assert_eq!(none.inverse(true).raw_on_bits(), INVERSE_ON);
    assert_eq!(none.bold(true).raw_off_bits(), BOLD_OFF);
    assert_eq!(none.italics(true).raw_off_bits(), ITALICS_OFF);
    assert_eq!(none.underline(true).raw_off_bits(), UNDERLINE_OFF);
    assert_eq!(none.inverse(true).raw_off_bits(), INVERSE_OFF);
    assert_eq!(none.bold(true).inverse(true), none.inverse(true).bold(true));
    assert_eq!(none.bold(true).bold(false), none.bold(true));
    assert_eq!(none.bold(true).bold(true), none.bold(true));
    let all = none.bold(true).italics(true).underline(true).inverse(true);
    assert_eq!(all.raw_on_bits(), 0x0f);
    assert_eq!(all.raw_off_bits(), 0xf0);
}

#[test]
fn cells_can_be_read_and_changed_in_place() {
    let mut c = Canvas::new(3, 2, '#');
    assert!(c.get_mut(3, 0).is_none());
    assert!(c.get_mut(0, 2).is_none());
    {
        let p = c.get_mut(2, 1).unwrap();
        p.ch = 'x';
        p.flags = BOLD_ON;
    }
    assert_eq!(cell(&c, 2, 1), ('x', BOLD_ON));
    assert!(untouched_but(&c, '#', &[(2, 1)]));
    c.get_unchecked_mut(0, 1).ch = 'y';
    assert_eq!(c.get_unchecked(0, 1).ch, 'y');
    assert_eq!(c.get_unchecked(1, 1).ch, '#');
    assert_eq!(c.render(), "###\x1B[0m\ny#\x1B[1mx\x1B[0m\n");
}
