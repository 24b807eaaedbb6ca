//! Text styles and the styled character cell.
//!
//! A cell does not store "this character is bold". It stores the points at
//! which a style starts and stops: the low four bits of its flag byte turn
//! styles on before the character, the high four bits turn them off after
//! it. A run of styled text therefore only marks its first and its last
//! cell.

use vstd::prelude::*;
use vstd::string::StringExecFns;

verus! {

/// Flag bit: bold starts at this cell.
pub const BOLD_ON: u8 = 0x01;

/// Flag bit: italics start at this cell.
pub const ITALICS_ON: u8 = 0x02;

/// Flag bit: underline starts at this cell.
pub const UNDERLINE_ON: u8 = 0x04;

/// Flag bit: inverse video starts at this cell.
pub const INVERSE_ON: u8 = 0x08;

/// Flag bit: bold stops after this cell.
pub const BOLD_OFF: u8 = 0x10;

/// Flag bit: italics stop after this cell.
pub const ITALICS_OFF: u8 = 0x20;

/// Flag bit: underline stops after this cell.
pub const UNDERLINE_OFF: u8 = 0x40;

/// Flag bit: inverse video stops after this cell.
pub const INVERSE_OFF: u8 = 0x80;

/// A set of text styles: bold, italics, underline and inverse video, each
/// either requested or not.
#[derive(Clone, Copy, Debug, PartialEq, Eq, PartialOrd, Ord, Hash)]
pub struct TextStyles {
    inner: u8,
}

impl TextStyles {
    /// The styles of the set, one bit each, in the positions of the `*_ON`
    /// flags. No other bit is ever set.
    pub closed spec fn on_bits(self) -> u8 {
        self.inner & 0x0f
    }

    /// The same styles in the positions of the `*_OFF` flags.
    pub open spec fn off_bits(self) -> u8 {
        self.on_bits() << 4
    }

    /// Whether bold is in the set.
    pub open spec fn has_bold(self) -> bool {
        self.on_bits() & BOLD_ON != 0
    }

    /// Whether italics are in the set.
    pub open spec fn has_italics(self) -> bool {
        self.on_bits() & ITALICS_ON != 0
    }

    /// Whether underline is in the set.
    pub open spec fn has_underline(self) -> bool {
        self.on_bits() & UNDERLINE_ON != 0
    }

    /// Whether inverse video is in the set.
    pub open spec fn has_inverse(self) -> bool {
        self.on_bits() & INVERSE_ON != 0
    }

    /// The bits of a style set never leave the low half of the byte, and
    /// shifted into the high half they never reach the low one.
    pub proof fn lemma_bits_apart(self)
        ensures
            self.on_bits() & 0xf0 == 0,
            self.off_bits() & 0x0f == 0,
            self.off_bits() >> 4 == self.on_bits(),
    {
        let b = self.inner;
        assert((b & 0x0f) & 0xf0 == 0) by (bit_vector);
        assert(((b & 0x0f) << 4) & 0x0f == 0) by (bit_vector);
        assert(((b & 0x0f) << 4) >> 4 == b & 0x0f) by (bit_vector);
    }

    /// The empty set.
    pub closed spec fn none() -> TextStyles {
        TextStyles { inner: 0 }
    }

    /// The set with the style `bit` added if `yes`.
    pub closed spec fn plus(self, bit: u8, yes: bool) -> TextStyles {
        if yes {
            TextStyles { inner: self.inner | bit }
        } else {
            self
        }
    }

    /// The set with bold added if `yes`.
    pub open spec fn with_bold(self, yes: bool) -> TextStyles {
        self.plus(BOLD_ON, yes)
    }

    /// The set with italics added if `yes`.
    pub open spec fn with_italics(self, yes: bool) -> TextStyles {
        self.plus(ITALICS_ON, yes)
    }

    /// The set with underline added if `yes`.
    pub open spec fn with_underline(self, yes: bool) -> TextStyles {
        self.plus(UNDERLINE_ON, yes)
    }

    /// The set with inverse added if `yes`.
    pub open spec fn with_inverse(self, yes: bool) -> TextStyles {
        self.plus(INVERSE_ON, yes)
    }

    /// What the set holds after a style has been added, or not: the style
    /// that was asked for on top of those that were there.
    pub proof fn lemma_added(self, yes: bool)
        ensures
            TextStyles::none().on_bits() == 0,
            self.with_bold(yes).on_bits() == if yes {
                self.on_bits() | BOLD_ON
            } else {
                self.on_bits()
            },
            self.with_italics(yes).on_bits() == if yes {
                self.on_bits() | ITALICS_ON
            } else {
                self.on_bits()
            },
            self.with_underline(yes).on_bits() == if yes {
                self.on_bits() | UNDERLINE_ON
            } else {
                self.on_bits()
            },
            self.with_inverse(yes).on_bits() == if yes {
                self.on_bits() | INVERSE_ON
            } else {
                self.on_bits()
            },
    {
        let b = self.inner;
        assert(0u8 & 0x0f == 0) by (bit_vector);
        assert((b | 0x01) & 0x0f == (b & 0x0f) | 0x01) by (bit_vector);
        assert((b | 0x02) & 0x0f == (b & 0x0f) | 0x02) by (bit_vector);
        assert((b | 0x04) & 0x0f == (b & 0x0f) | 0x04) by (bit_vector);
        assert((b | 0x08) & 0x0f == (b & 0x0f) | 0x08) by (bit_vector);
    }

    /// The empty set.
    #[verifier::when_used_as_spec(none)]
    pub fn new() -> (r: TextStyles)
        ensures
            r == TextStyles::none(),
            r.on_bits() == 0,
            !r.has_bold(),
            !r.has_italics(),
            !r.has_underline(),
            !r.has_inverse(),
    {
        assert(0u8 & 0x0f == 0) by (bit_vector);
        assert(0u8 & 0x01 == 0 && 0u8 & 0x02 == 0 && 0u8 & 0x04 == 0 && 0u8 & 0x08 == 0)
            by (bit_vector);
        TextStyles { inner: 0 }
    }

    /// Adds bold to the set if `yes`; never removes it.
    #[verifier::when_used_as_spec(with_bold)]
    pub fn bold(self, yes: bool) -> (r: TextStyles)
        ensures
            r == self.with_bold(yes),
            r.on_bits() == if yes { self.on_bits() | BOLD_ON } else { self.on_bits() },
            r.has_bold() == (self.has_bold() || yes),
            r.has_italics() == self.has_italics(),
            r.has_underline() == self.has_underline(),
            r.has_inverse() == self.has_inverse(),
    {
        self.with(BOLD_ON, yes)
    }

    /// Adds italics to the set if `yes`; never removes them.
    #[verifier::when_used_as_spec(with_italics)]
    pub fn italics(self, yes: bool) -> (r: TextStyles)
        ensures
            r == self.with_italics(yes),
            r.on_bits() == if yes { self.on_bits() | ITALICS_ON } else { self.on_bits() },
            r.has_bold() == self.has_bold(),
            r.has_italics() == (self.has_italics() || yes),
            r.has_underline() == self.has_underline(),
            r.has_inverse() == self.has_inverse(),
    {
        self.with(ITALICS_ON, yes)
    }

    /// Adds underline to the set if `yes`; never removes it.
    #[verifier::when_used_as_spec(with_underline)]
    pub fn underline(self, yes: bool) -> (r: TextStyles)
        ensures
            r == self.with_underline(yes),
            r.on_bits() == if yes { self.on_bits() | UNDERLINE_ON } else { self.on_bits() },
            r.has_bold() == self.has_bold(),
            r.has_italics() == self.has_italics(),
            r.has_underline() == (self.has_underline() || yes),
            r.has_inverse() == self.has_inverse(),
    {
        self.with(UNDERLINE_ON, yes)
    }

    /// Adds inverse video to the set if `yes`; never removes it.
    #[verifier::when_used_as_spec(with_inverse)]
    pub fn inverse(self, yes: bool) -> (r: TextStyles)
        ensures
            r == self.with_inverse(yes),
            r.on_bits() == if yes { self.on_bits() | INVERSE_ON } else { self.on_bits() },
            r.has_bold() == self.has_bold(),
            r.has_italics() == self.has_italics(),
            r.has_underline() == self.has_underline(),
            r.has_inverse() == (self.has_inverse() || yes),
    {
        self.with(INVERSE_ON, yes)
    }

    /// The start marks of the set, as a flag byte.
    pub fn raw_on_bits(self) -> (r: u8)
        ensures
            r == self.on_bits(),
    {
        self.inner & 0x0f
    }

    /// The stop marks of the set, as a flag byte.
    pub fn raw_off_bits(self) -> (r: u8)
        ensures
            r == self.off_bits(),
    {
        (self.inner & 0x0f) << 4
    }

    /// Adds the one style `bit` to the set if `yes`.
    fn with(self, bit: u8, yes: bool) -> (r: TextStyles)
        requires
            bit == BOLD_ON || bit == ITALICS_ON || bit == UNDERLINE_ON || bit == INVERSE_ON,
        ensures
            r == self.plus(bit, yes),
            r.on_bits() == if yes { self.on_bits() | bit } else { self.on_bits() },
            r.has_bold() == (self.has_bold() || (yes && bit == BOLD_ON)),
            r.has_italics() == (self.has_italics() || (yes && bit == ITALICS_ON)),
            r.has_underline() == (self.has_underline() || (yes && bit == UNDERLINE_ON)),
            r.has_inverse() == (self.has_inverse() || (yes && bit == INVERSE_ON)),
    {
        if yes {
            let b = self.inner;
            assert((b | bit) & 0x0f == (b & 0x0f) | bit) by (bit_vector)
                requires
                    bit == 0x01 || bit == 0x02 || bit == 0x04 || bit == 0x08,
            ;
            assert({
                let m = b & 0x0f;
                &&& ((m | bit) & 0x01 != 0) == (m & 0x01 != 0 || bit == 0x01)
                &&& ((m | bit) & 0x02 != 0) == (m & 0x02 != 0 || bit == 0x02)
                &&& ((m | bit) & 0x04 != 0) == (m & 0x04 != 0 || bit == 0x04)
                &&& ((m | bit) & 0x08 != 0) == (m & 0x08 != 0 || bit == 0x08)
            }) by (bit_vector)
                requires
                    bit == 0x01 || bit == 0x02 || bit == 0x04 || bit == 0x08,
            ;
            TextStyles { inner: self.inner | bit }
        } else {
            self
        }
    }
}

/// One cell of a canvas: a character and its style transitions.
#[derive(Clone, Copy, Debug)]
pub struct Pixel {
    pub ch: char,
    pub flags: u8,
}

/// The escape sequence that starts bold.
pub open spec fn bold_on_code() -> Seq<char> {
    seq!['\x1b', '[', '1', 'm']
}

/// The escape sequence that starts italics.
pub open spec fn italics_on_code() -> Seq<char> {
    seq!['\x1b', '[', '3', 'm']
}

/// The escape sequence that starts underline.
pub open spec fn underline_on_code() -> Seq<char> {
    seq!['\x1b', '[', '4', 'm']
}

/// The escape sequence that starts inverse video.
pub open spec fn inverse_on_code() -> Seq<char> {
    seq!['\x1b', '[', '7', 'm']
}

/// The escape sequence that stops bold.
pub open spec fn bold_off_code() -> Seq<char> {
    seq!['\x1b', '[', '2', '2', 'm']
}

/// The escape sequence that stops italics.
pub open spec fn italics_off_code() -> Seq<char> {
    seq!['\x1b', '[', '2', '3', 'm']
}

/// The escape sequence that stops underline.
pub open spec fn underline_off_code() -> Seq<char> {
    seq!['\x1b', '[', '2', '4', 'm']
}

/// The escape sequence that stops inverse video.
pub open spec fn inverse_off_code() -> Seq<char> {
    seq!['\x1b', '[', '2', '7', 'm']
}

/// The escape sequence that stops every style.
pub open spec fn reset_code() -> Seq<char> {
    seq!['\x1b', '[', '0', 'm']
}

/// `code` if `bit` is set in `flags`, else nothing.
pub open spec fn code_if(flags: u8, bit: u8, code: Seq<char>) -> Seq<char> {
    if flags & bit != 0 {
        code
    } else {
        Seq::empty()
    }
}

impl Pixel {
    /// What rendering the cell emits: the codes of the styles that start
    /// here, the character, the codes of the styles that stop here; always
    /// in the order bold, italics, underline, inverse.
    pub open spec fn rendered(self) -> Seq<char> {
        code_if(self.flags, BOLD_ON, bold_on_code())
            + code_if(self.flags, ITALICS_ON, italics_on_code())
            + code_if(self.flags, UNDERLINE_ON, underline_on_code())
            + code_if(self.flags, INVERSE_ON, inverse_on_code())
            + seq![self.ch]
            + code_if(self.flags, BOLD_OFF, bold_off_code())
            + code_if(self.flags, ITALICS_OFF, italics_off_code())
            + code_if(self.flags, UNDERLINE_OFF, underline_off_code())
            + code_if(self.flags, INVERSE_OFF, inverse_off_code())
    }

    /// A cell without flags renders as its bare character.
    pub proof fn lemma_plain_rendered(self)
        requires
            self.flags == 0,
        ensures
            self.rendered() == seq![self.ch],
    {
        assert(0u8 & 0x01 == 0 && 0u8 & 0x02 == 0 && 0u8 & 0x04 == 0 && 0u8 & 0x08 == 0)
            by (bit_vector);
        assert(0u8 & 0x10 == 0 && 0u8 & 0x20 == 0 && 0u8 & 0x40 == 0 && 0u8 & 0x80 == 0)
            by (bit_vector);
        assert(self.rendered() =~= seq![self.ch]);
    }

    /// Makes the styles of `styles` start at this cell, on top of those
    /// that already start here.
    pub fn set_styles_on(&mut self, styles: TextStyles)
        ensures
            final(self).ch == old(self).ch,
            final(self).flags == old(self).flags | styles.on_bits(),
    {
        self.flags = self.flags | styles.raw_on_bits();
    }

    /// Makes the styles of `styles` stop after this cell, on top of those
    /// that already stop here.
    pub fn set_styles_off(&mut self, styles: TextStyles)
        ensures
            final(self).ch == old(self).ch,
            final(self).flags == old(self).flags | styles.off_bits(),
    {
        self.flags = self.flags | styles.raw_off_bits();
    }

    /// Appends what the cell renders as to `out`.
    pub fn render_into(&self, out: &mut String)
        ensures
            final(out)@ == old(out)@ + self.rendered(),
    {
        let ghost before = out@;
        let ghost mut acc = Seq::<char>::empty();
        let flags: u8 = self.flags;
        assert(out@ =~= before + acc);
        proof {
            reveal_strlit("\x1B[1m");
            reveal_strlit("\x1B[3m");
            reveal_strlit("\x1B[4m");
            reveal_strlit("\x1B[7m");
            reveal_strlit("\x1B[22m");
            reveal_strlit("\x1B[23m");
            reveal_strlit("\x1B[24m");
            reveal_strlit("\x1B[27m");
            assert("\x1B[1m"@ =~= bold_on_code());
            assert("\x1B[3m"@ =~= italics_on_code());
            assert("\x1B[4m"@ =~= underline_on_code());
            assert("\x1B[7m"@ =~= inverse_on_code());
            assert("\x1B[22m"@ =~= bold_off_code());
            assert("\x1B[23m"@ =~= italics_off_code());
            assert("\x1B[24m"@ =~= underline_off_code());
            assert("\x1B[27m"@ =~= inverse_off_code());
        }
        append_if(out, flags & BOLD_ON != 0, "\x1B[1m");
        proof {
            let code = code_if(flags, BOLD_ON, bold_on_code());
            lemma_concat_assoc(before, acc, code);
            acc = acc + code;
        }
        append_if(out, flags & ITALICS_ON != 0, "\x1B[3m");
        proof {
            let code = code_if(flags, ITALICS_ON, italics_on_code());
            lemma_concat_assoc(before, acc, code);
            acc = acc + code;
        }
        append_if(out, flags & UNDERLINE_ON != 0, "\x1B[4m");
        proof {
            let code = code_if(flags, UNDERLINE_ON, underline_on_code());
            lemma_concat_assoc(before, acc, code);
            acc = acc + code;
        }
        append_if(out, flags & INVERSE_ON != 0, "\x1B[7m");
        proof {
            let code = code_if(flags, INVERSE_ON, inverse_on_code());
            lemma_concat_assoc(before, acc, code);
            acc = acc + code;
        }
        out.push(self.ch);
        proof {
            assert(out@ =~= (before + acc) + seq![self.ch]);
            lemma_concat_assoc(before, acc, seq![self.ch]);
            acc = acc + seq![self.ch];
        }
        append_if(out, flags & BOLD_OFF != 0, "\x1B[22m");
        proof {
            let code = code_if(flags, BOLD_OFF, bold_off_code());
            lemma_concat_assoc(before, acc, code);
            acc = acc + code;
        }
        append_if(out, flags & ITALICS_OFF != 0, "\x1B[23m");
        proof {
            let code = code_if(flags, ITALICS_OFF, italics_off_code());
            lemma_concat_assoc(before, acc, code);
            acc = acc + code;
        }
        append_if(out, flags & UNDERLINE_OFF != 0, "\x1B[24m");
        proof {
            let code = code_if(flags, UNDERLINE_OFF, underline_off_code());
            lemma_concat_assoc(before, acc, code);
            acc = acc + code;
        }
        append_if(out, flags & INVERSE_OFF != 0, "\x1B[27m");
        proof {
            let code = code_if(flags, INVERSE_OFF, inverse_off_code());
            lemma_concat_assoc(before, acc, code);
            acc = acc + code;
            assert(acc == self.rendered());
        }
    }

    /// The cell as the text that renders it.
    pub fn render(&self) -> (r: String)
        ensures
            r@ == self.rendered(),
    {
        let mut out = String::new();
        self.render_into(&mut out);
        assert(out@ =~= self.rendered());
        out
    }
}

/// Appends `code` to `out` if `wanted`.
fn append_if(out: &mut String, wanted: bool, code: &str)
    ensures
        final(out)@ == old(out)@ + (if wanted { code@ } else { Seq::empty() }),
{
    if wanted {
        out.append(code);
    } else {
        assert(out@ =~= old(out)@ + Seq::<char>::empty());
    }
}

/// Joining three sequences gives the same whichever two are joined first.
pub proof fn lemma_concat_assoc<A>(a: Seq<A>, b: Seq<A>, c: Seq<A>)
    ensures
        (a + b) + c == a + (b + c),
{
    assert((a + b) + c =~= a + (b + c));
}

/// `String::push` appends the one character to the string and changes
/// nothing else of it.
pub assume_specification[ String::push ](s: &mut String, ch: char)
    ensures
        final(s)@ == old(s)@.push(ch),
;

} // verus!
