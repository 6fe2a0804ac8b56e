//! Terminal reporting.
//!
//! Interactive terminals get a live spinner per step showing the most recent
//! line of build output, with the full log kept aside and only shown if the step
//! fails. CI logs (and `--verbose`) get every line, prefixed and dimmed, because
//! a spinner in a log file is noise.
//!
//! What is reported is given as text; nothing is printed here.

use crate::number::write_decimal;
use crate::text::{chars_of, string_of, trim_end};
use vstd::prelude::*;
use vstd::slice::slice_subrange;
use vstd::string::*;

pub mod brand;
pub mod measure;

use brand::{Palette, Tint, TEAL};
pub use measure::{format_bytes, format_duration, Elapsed};

verus! {

/// How many lines of a failed step to replay. Enough to see a compiler error
/// with context, short enough that the failure itself stays on screen.
pub const FAILURE_TAIL: usize = 60;

/// Reports on a build.
#[derive(Debug, Clone, Copy)]
pub struct Reporter {
    pub verbose: bool,
    pub interactive: bool,
    pub palette: Palette,
}

/// Where a text goes.
#[derive(Debug)]
pub enum Shown {
    /// A line of its own.
    Printed(String),
    /// The message beside the spinner.
    Spinner(String),
}

/// The model of `Shown`.
pub enum Showing {
    Printed(Seq<char>),
    Spinner(Seq<char>),
}

impl View for Shown {
    type V = Showing;

    open spec fn view(&self) -> Showing {
        match self {
            Shown::Printed(line) => Showing::Printed(line@),
            Shown::Spinner(message) => Showing::Spinner(message@),
        }
    }
}

/// The first text in its tint, a space, and the second in its tint, as a line.
pub open spec fn pair_line(palette: Palette, a: (Tint, Seq<char>), b: (Tint, Seq<char>)) -> Seq<
    char,
> {
    "  "@ + brand::painted(palette.enabled, a.0, a.1) + " "@ + brand::painted(
        palette.enabled,
        b.0,
        b.1,
    )
}

/// Two texts, each in its tint, as a line.
fn write_pair(palette: Palette, a: Tint, first: &str, b: Tint, second: &str) -> (line: String)
    ensures
        line@ == pair_line(palette, (a, first@), (b, second@)),
{
    let mut line = "  ".to_owned();
    line.append(palette.paint(a, first).as_str());
    line.append(" ");
    line.append(palette.paint(b, second).as_str());
    line
}

impl Reporter {
    /// A reporter. A spinner is only ever useful when someone is watching it: not
    /// where there is no terminal, where every line is printed, or in CI.
    pub fn new(verbose: bool, terminal: bool, ci: bool, palette: Palette) -> (reporter: Reporter)
        ensures
            reporter.verbose == verbose,
            reporter.interactive == (terminal && !verbose && !ci),
            reporter.palette == palette,
    {
        Reporter { verbose, interactive: terminal && !verbose && !ci, palette }
    }

    /// The heading of a build.
    pub fn heading(&self, left: &str, right: &str) -> (text: String)
        ensures
            text@ == "\n"@ + pair_line(
                self.palette,
                (Tint::Bold(brand::PINK), left@),
                (Tint::Plain(brand::GREY), right@),
            ),
    {
        let line = write_pair(
            self.palette,
            Tint::Bold(brand::PINK),
            left,
            Tint::Plain(brand::GREY),
            right,
        );
        let mut text = "\n".to_owned();
        text.append(line.as_str());
        text
    }

    /// A fact about a build.
    pub fn info(&self, label: &str, value: &str) -> (text: String)
        ensures
            text@ == "  "@ + brand::painted(
                self.palette.enabled,
                Tint::Plain(brand::GREY),
                crate::number::padded_left(label@, 10),
            ) + " "@ + value@,
    {
        let mut text = "  ".to_owned();
        text.append(self.palette.label(label, 10).as_str());
        text.append(" ");
        text.append(value);
        text
    }

    /// A note.
    pub fn note(&self, message: &str) -> (text: String)
        ensures
            text@ == "  "@ + brand::painted(self.palette.enabled, Tint::Yellow, "note"@) + " "@
                + message@,
    {
        let mut text = "  ".to_owned();
        text.append(self.palette.paint(Tint::Yellow, "note").as_str());
        text.append(" ");
        text.append(message);
        text
    }

    /// A step of the build, and how it is announced: on a spinner of its own, or
    /// on a line. `width` is the width of the terminal.
    pub fn step(&self, name: &str, width: usize) -> (opened: (Step, Shown))
        ensures
            opened.0.name@ == name@,
            opened.0.interactive == self.interactive,
            opened.0.palette == self.palette,
            opened.0.tail@.len() == 0,
            opened.0.width == width,
            opened.1@ == if self.interactive {
                Showing::Spinner(
                    brand::painted(self.palette.enabled, Tint::Plain(brand::PURPLE), name@),
                )
            } else {
                Showing::Printed(
                    pair_line(
                        self.palette,
                        (Tint::Plain(TEAL), "▸"@),
                        (Tint::Plain(brand::PURPLE), name@),
                    ),
                )
            },
    {
        let shown = if self.interactive {
            Shown::Spinner(self.palette.name(name))
        } else {
            Shown::Printed(
                write_pair(
                    self.palette,
                    Tint::Plain(TEAL),
                    "▸",
                    Tint::Plain(brand::PURPLE),
                    name,
                ),
            )
        };
        let step = Step {
            name: name.to_owned(),
            interactive: self.interactive,
            palette: self.palette,
            tail: Vec::new(),
            width,
        };
        (step, shown)
    }

    /// The end of a build that worked.
    pub fn success(&self, message: &str) -> (text: String)
        ensures
            text@ == "\n"@ + pair_line(
                self.palette,
                (Tint::Bold(TEAL), "✔"@),
                (Tint::Bold(brand::PINK), message@),
            ) + "\n"@,
    {
        let line = write_pair(
            self.palette,
            Tint::Bold(TEAL),
            "✔",
            Tint::Bold(brand::PINK),
            message,
        );
        let mut text = "\n".to_owned();
        text.append(line.as_str());
        text.append("\n");
        text
    }

    /// The end of a build that failed.
    pub fn failure(&self, message: &str) -> (text: String)
        ensures
            text@ == "\n"@ + pair_line(
                self.palette,
                (Tint::Bold(brand::RED), "✖"@),
                (Tint::Bold(brand::RED), message@),
            ) + "\n"@,
    {
        let line = write_pair(
            self.palette,
            Tint::Bold(brand::RED),
            "✖",
            Tint::Bold(brand::RED),
            message,
        );
        let mut text = "\n".to_owned();
        text.append(line.as_str());
        text.append("\n");
        text
    }

    /// Whether every line of output is printed.
    pub fn is_verbose(&self) -> (verbose: bool)
        ensures
            verbose == self.verbose,
    {
        self.verbose
    }
}

/// A step of a build, as it is reported.
#[derive(Debug)]
pub struct Step {
    pub name: String,
    pub interactive: bool,
    pub palette: Palette,
    /// The last lines of output.
    pub tail: Vec<String>,
    /// The width of the terminal.
    pub width: usize,
}

/// The last lines of output after one more line.
pub open spec fn kept(tail: Seq<Seq<char>>, line: Seq<char>) -> Seq<Seq<char>> {
    if tail.len() == FAILURE_TAIL {
        tail.drop_first().push(line)
    } else {
        tail.push(line)
    }
}

/// How many characters of a line fit beside a spinner and the name of its step.
pub open spec fn budget(width: usize, name: Seq<char>) -> int {
    let left = width - vstd::utf8::encode_utf8(name).len() - 12;
    if left < 16 {
        16
    } else {
        left
    }
}

/// A text cut down to `max` characters, the last of them an ellipsis.
pub open spec fn truncated(text: Seq<char>, max: int) -> Seq<char> {
    if text.len() <= max {
        text
    } else {
        text.take(
            if max < 1 {
                0
            } else {
                max - 1
            },
        ).push('…')
    }
}

/// A line of output.
pub open spec fn output_line(palette: Palette, bar: Tint, line: Seq<char>) -> Seq<char> {
    pair_line(palette, (bar, "│"@), (Tint::Plain(brand::GREY), line))
}

/// The line that ends a step.
pub open spec fn closing_line(
    palette: Palette,
    mark: (Tint, Seq<char>),
    name: (Tint, Seq<char>),
    elapsed: Elapsed,
) -> Seq<char> {
    pair_line(palette, mark, name) + " "@ + brand::painted(
        palette.enabled,
        Tint::Plain(brand::GREY),
        measure::duration_text(elapsed),
    )
}

impl Step {
    /// Feeds one line of build output to the reporter.
    pub fn line(&mut self, line: &str) -> (shown: Shown)
        ensures
            final(self).name == old(self).name,
            final(self).interactive == old(self).interactive,
            final(self).palette == old(self).palette,
            final(self).width == old(self).width,
            crate::text::texts(final(self).tail@) == kept(
                crate::text::texts(old(self).tail@),
                line@,
            ),
            shown@ == ({
                let text = crate::text::without_trailing_space(line@);
                if old(self).interactive {
                    Showing::Spinner(
                        brand::painted(
                            old(self).palette.enabled,
                            Tint::Plain(brand::PURPLE),
                            old(self).name@,
                        ) + " "@ + brand::painted(
                            old(self).palette.enabled,
                            Tint::Plain(brand::GREY),
                            truncated(text, budget(old(self).width, old(self).name@)),
                        ),
                    )
                } else {
                    Showing::Printed(
                        output_line(old(self).palette, Tint::Plain(brand::GREY), text),
                    )
                }
            }),
    {
        let ghost before = crate::text::texts(self.tail@);
        if self.tail.len() == FAILURE_TAIL {
            self.tail.remove(0);
            assert(crate::text::texts(self.tail@) =~= before.drop_first());
        }
        let ghost room = crate::text::texts(self.tail@);
        self.tail.push(line.to_owned());
        assert(crate::text::texts(self.tail@) =~= room.push(line@));

        let chars = chars_of(line);
        let text = string_of(trim_end(&chars));
        if self.interactive {
            let used = self.name.as_str().as_bytes().len();
            let left = self.width.saturating_sub(used).saturating_sub(12);
            let room = if left < 16 {
                16
            } else {
                left
            };
            let mut message = self.palette.name(self.name.as_str());
            message.append(" ");
            message.append(self.palette.dim(truncate(text.as_str(), room).as_str()).as_str());
            Shown::Spinner(message)
        } else {
            Shown::Printed(
                write_pair(
                    self.palette,
                    Tint::Plain(brand::GREY),
                    "│",
                    Tint::Plain(brand::GREY),
                    text.as_str(),
                ),
            )
        }
    }

    /// A line that stays on screen even in spinner mode.
    pub fn say(&self, message: &str) -> (text: String)
        ensures
            text@ == output_line(self.palette, Tint::Plain(brand::GREY), message@),
    {
        write_pair(
            self.palette,
            Tint::Plain(brand::GREY),
            "│",
            Tint::Plain(brand::GREY),
            message,
        )
    }

    /// The end of a step that worked.
    pub fn finish(self, elapsed: Elapsed) -> (text: String)
        requires
            elapsed.wf(),
        ensures
            text@ == closing_line(
                self.palette,
                (Tint::Bold(TEAL), "✔"@),
                (Tint::Plain(brand::PURPLE), self.name@),
                elapsed,
            ),
    {
        let mut text = write_pair(
            self.palette,
            Tint::Bold(TEAL),
            "✔",
            Tint::Plain(brand::PURPLE),
            self.name.as_str(),
        );
        text.append(" ");
        text.append(self.palette.dim(format_duration(elapsed).as_str()).as_str());
        text
    }

    /// The end of a step that failed, with the tail of the captured output, since
    /// in spinner mode the user has seen nothing but a one-line summary up to this
    /// point.
    pub fn fail(self, elapsed: Elapsed) -> (lines: Vec<String>)
        requires
            elapsed.wf(),
        ensures
            crate::text::texts(lines@) == failure_lines(
                self.palette,
                self.name@,
                self.interactive,
                crate::text::texts(self.tail@),
                elapsed,
            ),
    {
        let mut text = write_pair(
            self.palette,
            Tint::Bold(brand::RED),
            "✖",
            Tint::Bold(brand::RED),
            self.name.as_str(),
        );
        text.append(" ");
        text.append(self.palette.dim(format_duration(elapsed).as_str()).as_str());
        let ghost first = text@;
        let mut lines: Vec<String> = Vec::new();
        lines.push(text);
        assert(crate::text::texts(lines@) =~= seq![first]);
        if !self.interactive || self.tail.len() == 0 {
            return lines;
        }
        let mut count = "last ".to_owned();
        count.append(write_decimal(self.tail.len() as u64).as_str());
        count.append(" lines:");
        let mut summary = "  ".to_owned();
        summary.append(self.palette.dim(count.as_str()).as_str());
        let ghost second = summary@;
        lines.push(summary);
        let ghost tail = crate::text::texts(self.tail@);
        let ghost replay = |line: Seq<char>| replayed(self.palette, line);
        let mut i: usize = 0;
        assert(crate::text::texts(lines@) =~= seq![first, second] + tail.take(0).map_values(
            replay,
        ));
        while i < self.tail.len()
            invariant
                i <= self.tail@.len(),
                tail == crate::text::texts(self.tail@),
                replay == (|line: Seq<char>| replayed(self.palette, line)),
                crate::text::texts(lines@) == seq![first, second] + tail.take(i as int).map_values(
                    replay,
                ),
            decreases self.tail@.len() - i,
        {
            let ghost before = crate::text::texts(lines@);
            let chars = chars_of(self.tail[i].as_str());
            let line = write_pair(
                self.palette,
                Tint::Bold(brand::RED),
                "│",
                Tint::Plain(brand::GREY),
                string_of(trim_end(&chars)).as_str(),
            );
            let ghost shown = line@;
            lines.push(line);
            assert(crate::text::texts(lines@) =~= before.push(shown));
            assert(tail.take(i + 1) =~= tail.take(i as int).push(tail[i as int]));
            i += 1;
            assert(crate::text::texts(lines@) =~= seq![first, second] + tail.take(
                i as int,
            ).map_values(replay));
        }
        assert(tail.take(i as int) =~= tail);
        lines
    }
}

/// A line of output, as it is replayed after a failure.
pub open spec fn replayed(palette: Palette, line: Seq<char>) -> Seq<char> {
    output_line(palette, Tint::Bold(brand::RED), crate::text::without_trailing_space(line))
}

/// What is said of a step that failed.
pub open spec fn failure_lines(
    palette: Palette,
    name: Seq<char>,
    interactive: bool,
    tail: Seq<Seq<char>>,
    elapsed: Elapsed,
) -> Seq<Seq<char>> {
    let first = closing_line(
        palette,
        (Tint::Bold(brand::RED), "✖"@),
        (Tint::Bold(brand::RED), name),
        elapsed,
    );
    if !interactive || tail.len() == 0 {
        seq![first]
    } else {
        seq![
            first,
            "  "@ + brand::painted(
                palette.enabled,
                Tint::Plain(brand::GREY),
                "last "@ + crate::number::decimal(tail.len()) + " lines:"@,
            ),
        ] + tail.map_values(|line: Seq<char>| replayed(palette, line))
    }
}

/// A text cut down to `max` characters, the last of them an ellipsis.
pub fn truncate(text: &str, max: usize) -> (out: String)
    ensures
        out@ == truncated(text@, max as int),
{
    let chars = chars_of(text);
    if chars.len() <= max {
        return text.to_owned();
    }
    let keep = max.saturating_sub(1);
    let mut out = string_of(slice_subrange(&chars, 0, keep));
    out.push('…');
    out
}

// -- laws --------------------------------------------------------------------

/// A truncated text has as many characters as there is room for, and at least the
/// ellipsis; one that fits is left alone.
pub proof fn law_truncation_fits(text: Seq<char>, max: int)
    requires
        max >= 0,
    ensures
        truncated(text, max).len() <= if max < 1 {
            1
        } else {
            max
        },
        text.len() <= max ==> truncated(text, max) == text,
        truncated(text, max) != text ==> truncated(text, max).last() == '…',
{
}

/// The lines kept after some lines were fed to a step.
pub open spec fn kept_of(lines: Seq<Seq<char>>) -> Seq<Seq<char>>
    decreases lines.len(),
{
    if lines.len() == 0 {
        seq![]
    } else {
        kept(kept_of(lines.drop_last()), lines.last())
    }
}

/// A failed step replays the last lines of its output, and as many of them as are
/// ever kept.
pub proof fn law_tail_is_the_last_lines(lines: Seq<Seq<char>>)
    ensures
        kept_of(lines) == lines.skip(
            if lines.len() <= FAILURE_TAIL {
                0
            } else {
                lines.len() - FAILURE_TAIL
            },
        ),
    decreases lines.len(),
{
    if lines.len() > 0 {
        law_tail_is_the_last_lines(lines.drop_last());
        assert(lines =~= lines.drop_last().push(lines.last()));
        assert(kept_of(lines) =~= lines.skip(
            if lines.len() <= FAILURE_TAIL {
                0
            } else {
                lines.len() - FAILURE_TAIL
            },
        ));
    }
}

/// A text that is cut keeps its beginning.
pub proof fn law_truncation_keeps_the_beginning(text: Seq<char>, max: int)
    requires
        1 <= max < text.len(),
    ensures
        truncated(text, max) == text.take(max - 1).push('…'),
        truncated(text, max).len() == max,
{
}

/// The tail that is kept for a failure is sixty lines long.
pub proof fn law_sixty_lines_are_kept(lines: Seq<Seq<char>>)
    ensures
        lines.len() <= 60 ==> kept_of(lines) == lines,
        lines.len() > 60 ==> kept_of(lines) == lines.skip(lines.len() - 60),
{
    law_tail_is_the_last_lines(lines);
    if lines.len() <= 60 {
        assert(lines.skip(0) =~= lines);
    }
}

/// Where a spinner hid the output of a step that failed, its last lines are shown,
/// all of them and in their order; otherwise they were printed already.
pub proof fn law_hidden_output_is_replayed(
    palette: Palette,
    name: Seq<char>,
    interactive: bool,
    tail: Seq<Seq<char>>,
    elapsed: Elapsed,
)
    ensures
        ({
            let lines = failure_lines(palette, name, interactive, tail, elapsed);
            &&& !interactive || tail.len() == 0 ==> lines.len() == 1
            &&& interactive && tail.len() > 0 ==> lines.len() == tail.len() + 2 && forall|i: int|
                0 <= i < tail.len() ==> #[trigger] lines[i + 2] == pair_line(
                    palette,
                    (Tint::Bold(brand::RED), "│"@),
                    (Tint::Plain(brand::GREY), crate::text::without_trailing_space(tail[i])),
                )
        }),
{
}

/// The message beside a spinner has the room that the name leaves, and some in any
/// case.
pub proof fn law_messages_have_room(width: usize, name: Seq<char>)
    ensures
        budget(width, name) >= 16,
        budget(width, name) >= width - vstd::utf8::encode_utf8(name).len() - 12,
        budget(width, name) > 16 ==> budget(width, name) + vstd::utf8::encode_utf8(name).len() + 12
            == width,
{
}

/// Without colours a line is its two parts, indented and parted by a blank, and the
/// line that closes a step tells how long it took.
pub proof fn law_lines_hold_their_parts(
    first: (Tint, Seq<char>),
    second: (Tint, Seq<char>),
    elapsed: Elapsed,
)
    ensures
        pair_line((Palette { enabled: false }), first, second) == "  "@ + first.1 + " "@ + second.1,
        closing_line((Palette { enabled: false }), first, second, elapsed) == "  "@ + first.1 + " "@
            + second.1 + " "@ + measure::duration_text(elapsed),
        output_line((Palette { enabled: false }), first.0, second.1) == "  "@ + "│"@ + " "@
            + second.1,
{
}

/// The model of what is shown tells lines and spinners apart.
pub proof fn law_shown_texts_are_modelled(shown: Shown)
    ensures
        match shown {
            Shown::Printed(line) => shown@ == Showing::Printed(line@),
            Shown::Spinner(message) => shown@ == Showing::Spinner(message@),
        },
{
}

} // verus!
