//! The palette. 256-colour codes rather than truecolor: every terminal worth
//! supporting handles them, and they degrade to something sane over ssh.

use crate::number::pad_left;
use vstd::prelude::*;

verus! {

/// Electric pink: the brand mark.
pub const PINK: u8 = 198;

/// Teal: things that are working or worked.
pub const TEAL: u8 = 44;

/// Purple: step names.
pub const PURPLE: u8 = 141;

/// Hot red-pink: failures.
pub const RED: u8 = 197;

/// Dim: build output and labels.
pub const GREY: u8 = 245;

/// How a text is set off from the others.
pub enum Tint {
    /// A colour out of the 256.
    Plain(u8),
    /// A colour out of the 256, in bold.
    Bold(u8),
    /// The terminal's own yellow.
    Yellow,
    /// The terminal's own cyan, in bold.
    BoldCyan,
}

/// The escape sequences before a text in this tint.
pub open spec fn escapes(tint: Tint) -> Seq<char> {
    match tint {
        Tint::Plain(color) => "\u{1b}[38;5;"@ + crate::number::decimal(color as nat) + "m"@,
        Tint::Bold(color) => "\u{1b}[38;5;"@ + crate::number::decimal(color as nat) + "m"@
            + "\u{1b}[1m"@,
        Tint::Yellow => "\u{1b}[33m"@,
        Tint::BoldCyan => "\u{1b}[36m"@ + "\u{1b}[1m"@,
    }
}

/// A text in a tint. Where colours are off, it is the text itself.
pub open spec fn painted(enabled: bool, tint: Tint, text: Seq<char>) -> Seq<char> {
    if enabled {
        escapes(tint) + text + "\u{1b}[0m"@
    } else {
        text
    }
}

/// Calls `console::colors_enabled`, which says whether standard output takes
/// colours. That depends on the terminal and the environment, so nothing is
/// claimed of the answer.
#[verifier::external_body]
fn colors_enabled() -> (enabled: bool) {
    console::colors_enabled()
}

/// Applies a `console::Style` of one colour out of the 256, styling forced on or
/// off, and writes the result out. The contract claims the escape sequences that
/// its `Display` writes: the colour before the text and the reset after it, or
/// nothing where styling is off.
#[verifier::external_body]
fn styled(enabled: bool, color: u8, text: &str) -> (out: String)
    ensures
        out@ == painted(enabled, Tint::Plain(color), text@),
{
    console::Style::new().color256(color).force_styling(enabled).apply_to(text).to_string()
}

/// Applies a bold `console::Style` of one colour out of the 256, styling forced on
/// or off, and writes the result out. The contract claims the escape sequences
/// that its `Display` writes: the colour and then bold before the text, and the
/// reset after it, or nothing where styling is off.
#[verifier::external_body]
fn styled_bold(enabled: bool, color: u8, text: &str) -> (out: String)
    ensures
        out@ == painted(enabled, Tint::Bold(color), text@),
{
    console::Style::new().color256(color).bold().force_styling(enabled).apply_to(text).to_string()
}

/// Applies `console::style(..).yellow()`, styling forced on or off, and writes the
/// result out. The contract claims the escape sequences that its `Display` writes.
#[verifier::external_body]
fn styled_yellow(enabled: bool, text: &str) -> (out: String)
    ensures
        out@ == painted(enabled, Tint::Yellow, text@),
{
    console::style(text).yellow().force_styling(enabled).to_string()
}

/// Applies `console::style(..).cyan().bold()`, styling forced on or off, and
/// writes the result out. The contract claims the escape sequences that its
/// `Display` writes.
#[verifier::external_body]
fn styled_bold_cyan(enabled: bool, text: &str) -> (out: String)
    ensures
        out@ == painted(enabled, Tint::BoldCyan, text@),
{
    console::style(text).cyan().bold().force_styling(enabled).to_string()
}

/// Whether texts are coloured.
#[derive(Debug, Clone, Copy, PartialEq, Eq, Structural)]
pub struct Palette {
    pub enabled: bool,
}

impl Palette {
    /// The palette of standard output. Whether that takes colours depends on the
    /// terminal and the environment.
    pub fn current() -> (palette: Palette) {
        Palette { enabled: colors_enabled() }
    }

    /// A text in a tint.
    pub fn paint(self, tint: Tint, text: &str) -> (out: String)
        ensures
            out@ == painted(self.enabled, tint, text@),
    {
        match tint {
            Tint::Plain(color) => styled(self.enabled, color, text),
            Tint::Bold(color) => styled_bold(self.enabled, color, text),
            Tint::Yellow => styled_yellow(self.enabled, text),
            Tint::BoldCyan => styled_bold_cyan(self.enabled, text),
        }
    }

    /// A title.
    pub fn title(self, text: &str) -> (out: String)
        ensures
            out@ == painted(self.enabled, Tint::Bold(PINK), text@),
    {
        self.paint(Tint::Bold(PINK), text)
    }

    /// The name of a step.
    pub fn name(self, text: &str) -> (out: String)
        ensures
            out@ == painted(self.enabled, Tint::Plain(PURPLE), text@),
    {
        self.paint(Tint::Plain(PURPLE), text)
    }

    /// Something that worked.
    pub fn ok(self, text: &str) -> (out: String)
        ensures
            out@ == painted(self.enabled, Tint::Bold(TEAL), text@),
    {
        self.paint(Tint::Bold(TEAL), text)
    }

    /// Something that failed.
    pub fn error(self, text: &str) -> (out: String)
        ensures
            out@ == painted(self.enabled, Tint::Bold(RED), text@),
    {
        self.paint(Tint::Bold(RED), text)
    }

    /// Build output.
    pub fn dim(self, text: &str) -> (out: String)
        ensures
            out@ == painted(self.enabled, Tint::Plain(GREY), text@),
    {
        self.paint(Tint::Plain(GREY), text)
    }

    /// A label, right-aligned before it is coloured.
    pub fn label(self, text: &str, width: usize) -> (out: String)
        ensures
            out@ == painted(
                self.enabled,
                Tint::Plain(GREY),
                crate::number::padded_left(text@, width as int),
            ),
    {
        self.dim(pad_left(text, width).as_str())
    }
}

/// `out` is the text in a tint, or without it where colours are off.
pub open spec fn shows(out: Seq<char>, tint: Tint, text: Seq<char>) -> bool {
    exists|enabled: bool| out == #[trigger] painted(enabled, tint, text)
}

/// A title on standard output.
pub fn title(text: &str) -> (out: String)
    ensures
        shows(out@, Tint::Bold(PINK), text@),
{
    Palette::current().title(text)
}

/// The name of a step on standard output.
pub fn name(text: &str) -> (out: String)
    ensures
        shows(out@, Tint::Plain(PURPLE), text@),
{
    Palette::current().name(text)
}

/// Something that worked, on standard output.
pub fn ok(text: &str) -> (out: String)
    ensures
        shows(out@, Tint::Bold(TEAL), text@),
{
    Palette::current().ok(text)
}

/// Something that failed, on standard output.
pub fn error(text: &str) -> (out: String)
    ensures
        shows(out@, Tint::Bold(RED), text@),
{
    Palette::current().error(text)
}

/// Build output on standard output.
pub fn dim(text: &str) -> (out: String)
    ensures
        shows(out@, Tint::Plain(GREY), text@),
{
    Palette::current().dim(text)
}

/// A label on standard output. Right-aligns before colouring: ANSI escapes have no
/// width, so padding a styled text silently misaligns the column.
pub fn label(text: &str, width: usize) -> (out: String)
    ensures
        shows(out@, Tint::Plain(GREY), crate::number::padded_left(text@, width as int)),
{
    Palette::current().label(text, width)
}

// -- laws --------------------------------------------------------------------

/// The padding of a label stands inside the escape sequences: whatever the
/// colours, the label holds the padded text in one piece.
pub proof fn law_labels_are_padded_before_colouring(enabled: bool, text: Seq<char>, width: int)
    ensures
        ({
            let padded = crate::number::padded_left(text, width);
            let label = painted(enabled, Tint::Plain(GREY), padded);
            exists|at: int| #[trigger] crate::text::occurs_at(label, padded, at)
        }),
        text.len() <= width ==> crate::number::padded_left(text, width).len() == width,
{
    let padded = crate::number::padded_left(text, width);
    let label = painted(enabled, Tint::Plain(GREY), padded);
    let at = if enabled {
        escapes(Tint::Plain(GREY)).len() as int
    } else {
        0
    };
    assert(label.subrange(at, at + padded.len()) =~= padded);
    assert(crate::text::occurs_at(label, padded, at));
}

/// Without colours a text is shown as it is; with them it stands in one piece between
/// the escape sequence of its colour and the one that ends it.
pub proof fn law_colours_surround_the_text(color: u8, text: Seq<char>)
    ensures
        painted(false, Tint::Plain(color), text) == text,
        painted(false, Tint::Bold(color), text) == text,
        painted(false, Tint::Yellow, text) == text,
        painted(false, Tint::BoldCyan, text) == text,
        painted(true, Tint::Plain(color), text) == "\u{1b}[38;5;"@ + crate::number::decimal(
            color as nat,
        ) + "m"@ + text + "\u{1b}[0m"@,
        painted(true, Tint::Bold(color), text) == "\u{1b}[38;5;"@ + crate::number::decimal(
            color as nat,
        ) + "m"@ + "\u{1b}[1m"@ + text + "\u{1b}[0m"@,
        painted(true, Tint::Yellow, text) == "\u{1b}[33m"@ + text + "\u{1b}[0m"@,
        painted(true, Tint::BoldCyan, text) == "\u{1b}[36m"@ + "\u{1b}[1m"@ + text + "\u{1b}[0m"@,
{
}

/// A text is shown plainly or in its colour, and in no other way.
pub proof fn law_texts_are_shown_plainly_or_coloured(out: Seq<char>, tint: Tint, text: Seq<char>)
    ensures
        shows(out, tint, text) <==> out == text || out == painted(true, tint, text),
{
    assert(painted(false, tint, text) == text);
    if shows(out, tint, text) {
        let enabled = choose|enabled: bool| out == #[trigger] painted(enabled, tint, text);
        assert(enabled || !enabled);
    }
}

} // verus!
