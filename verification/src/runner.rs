//! Step execution: what the end of a shell script means.

use crate::number::write_decimal;
use crate::recipe::text_from_lossy;
use crate::text::trim_text;
use vstd::prelude::*;
use vstd::string::*;

verus! {

/// Why a script did not run to its end.
#[derive(Debug)]
pub enum RunError {
    /// There is no such working directory.
    NoDirectory { cwd: String },
    /// The shell could not be started.
    NotStarted { cause: String },
    /// The script ended with a status other than success.
    Exited { code: i32 },
    /// The script was killed.
    Killed,
    /// It could not be found out how the script ended.
    Lost { cause: String },
    /// The script failed; this is what it wrote to its error output.
    Failed { stderr: String },
}

/// The model of `RunError`.
pub enum Failing {
    NoDirectory(Seq<char>),
    NotStarted(Seq<char>),
    Exited(i32),
    Killed,
    Lost(Seq<char>),
    Failed(Seq<char>),
}

impl View for RunError {
    type V = Failing;

    open spec fn view(&self) -> Failing {
        match self {
            RunError::NoDirectory { cwd } => Failing::NoDirectory(cwd@),
            RunError::NotStarted { cause } => Failing::NotStarted(cause@),
            RunError::Exited { code } => Failing::Exited(*code),
            RunError::Killed => Failing::Killed,
            RunError::Lost { cause } => Failing::Lost(cause@),
            RunError::Failed { stderr } => Failing::Failed(stderr@),
        }
    }
}

/// A number in decimal, with a minus sign where it is negative.
pub open spec fn signed_decimal(number: int) -> Seq<char> {
    if number < 0 {
        "-"@ + crate::number::decimal((-number) as nat)
    } else {
        crate::number::decimal(number as nat)
    }
}

/// A number in decimal, with a minus sign where it is negative.
fn write_signed(number: i32) -> (text: String)
    ensures
        text@ == signed_decimal(number as int),
{
    if number < 0 {
        let mut text = "-".to_owned();
        text.append(write_decimal((-(number as i64)) as u64).as_str());
        text
    } else {
        write_decimal(number as u64)
    }
}

impl RunError {
    /// The error in words.
    pub open spec fn words(self) -> Seq<char> {
        match self {
            RunError::NoDirectory { cwd } => "working directory "@ + cwd@ + " does not exist"@,
            RunError::NotStarted { cause } =>
                "could not start bash (is it installed and on PATH?): "@ + cause@,
            RunError::Exited { code } => "command exited with status "@ + signed_decimal(
                code as int,
            ),
            RunError::Killed => "command was killed by a signal"@,
            RunError::Lost { cause } => cause@,
            RunError::Failed { stderr } => "command failed: "@ + stderr@,
        }
    }

    /// The error in words.
    pub fn message(&self) -> (text: String)
        ensures
            text@ == self.words(),
    {
        match self {
            RunError::NoDirectory { cwd } => {
                let mut text = "working directory ".to_owned();
                text.append(cwd.as_str());
                text.append(" does not exist");
                text
            },
            RunError::NotStarted { cause } => {
                let mut text =
                    "could not start bash (is it installed and on PATH?): ".to_owned();
                text.append(cause.as_str());
                text
            },
            RunError::Exited { code } => {
                let mut text = "command exited with status ".to_owned();
                text.append(write_signed(*code).as_str());
                text
            },
            RunError::Killed => "command was killed by a signal".to_owned(),
            RunError::Lost { cause } => cause.clone(),
            RunError::Failed { stderr } => {
                let mut text = "command failed: ".to_owned();
                text.append(stderr.as_str());
                text
            },
        }
    }
}

/// How the run of a script ended.
#[derive(Debug)]
pub enum Ending {
    /// There is no directory to run it in.
    NoDirectory,
    /// The shell could not be started.
    NotStarted { cause: String },
    /// It could not be found out how the script ended.
    Lost { cause: String },
    /// The script ended. There is no code where it was killed.
    Ended { success: bool, code: Option<i32> },
}

/// Why the run of a script in `cwd` is a failure, where it is one.
pub open spec fn failing(cwd: Seq<char>, ending: Ending) -> Option<Failing> {
    match ending {
        Ending::NoDirectory => Some(Failing::NoDirectory(cwd)),
        Ending::NotStarted { cause } => Some(Failing::NotStarted(cause@)),
        Ending::Lost { cause } => Some(Failing::Lost(cause@)),
        Ending::Ended { success: true, .. } => None,
        Ending::Ended { success: false, code: Some(code) } => Some(Failing::Exited(code)),
        Ending::Ended { success: false, code: None } => Some(Failing::Killed),
    }
}

/// What came of running a script in `cwd` with its output streamed.
pub fn shell(cwd: &str, ending: Ending) -> (outcome: Result<(), RunError>)
    ensures
        match failing(cwd@, ending) {
            None => outcome is Ok,
            Some(failing) => outcome matches Err(error) && error@ == failing,
        },
{
    match ending {
        Ending::NoDirectory => Err(RunError::NoDirectory { cwd: cwd.to_owned() }),
        Ending::NotStarted { cause } => Err(RunError::NotStarted { cause }),
        Ending::Lost { cause } => Err(RunError::Lost { cause }),
        Ending::Ended { success, code } => {
            if success {
                return Ok(());
            }
            match code {
                Some(code) => Err(RunError::Exited { code }),
                None => Err(RunError::Killed),
            }
        },
    }
}

/// The text of some output, without the white space around it.
pub open spec fn output_text(output: Seq<u8>) -> Seq<char> {
    crate::text::trimmed(crate::recipe::lossy_utf8(output))
}

/// The text of some output, without the white space around it.
fn read_output(output: &[u8]) -> (text: String)
    ensures
        text@ == output_text(output@),
{
    trim_text(text_from_lossy(output).as_str())
}

/// What came of running a script whose output was captured instead of streamed.
/// Used for the few places that need a value rather than a log.
pub fn capture(success: bool, stdout: &[u8], stderr: &[u8]) -> (outcome: Result<String, RunError>)
    ensures
        if success {
            outcome matches Ok(text) && text@ == output_text(stdout@)
        } else {
            outcome matches Err(RunError::Failed { stderr: stated }) && stated@ == output_text(
                stderr@,
            )
        },
{
    if success {
        Ok(read_output(stdout))
    } else {
        Err(RunError::Failed { stderr: read_output(stderr) })
    }
}

// -- laws --------------------------------------------------------------------

/// A script succeeds exactly where it was run to its end and ended with success;
/// otherwise what is said of it is what kept it from that.
pub proof fn law_only_success_is_success(cwd: Seq<char>, ending: Ending)
    ensures
        failing(cwd, ending) is None <==> (ending matches Ending::Ended { success, code } && success),
        ending matches Ending::Ended { success, code } && !success ==> failing(cwd, ending) == Some(
            match ending->code {
                Some(status) => Failing::Exited(status),
                None => Failing::Killed,
            },
        ),
        ending is NoDirectory ==> failing(cwd, ending) == Some(Failing::NoDirectory(cwd)),
        ending matches Ending::NotStarted { cause } ==> failing(cwd, ending) == Some(
            Failing::NotStarted(cause@),
        ),
        ending matches Ending::Lost { cause } ==> failing(cwd, ending) == Some(
            Failing::Lost(cause@),
        ),
{
}

/// The output of a program is what its bytes say, without the white space at its
/// ends, and with all that stands between.
pub proof fn law_output_is_trimmed(
    output: Seq<u8>,
    before: Seq<char>,
    text: Seq<char>,
    after: Seq<char>,
)
    requires
        crate::recipe::lossy_utf8(output) == before + text + after,
        forall|i: int| 0 <= i < before.len() ==> crate::text::is_space(#[trigger] before[i]),
        forall|i: int| 0 <= i < after.len() ==> crate::text::is_space(#[trigger] after[i]),
        text.len() > 0 ==> !crate::text::is_space(text[0]) && !crate::text::is_space(text.last()),
    ensures
        output_text(output) == text,
{
    crate::text::law_trimming_leaves_the_middle(before, text, after);
}

/// Numbers below zero are written with a sign.
pub proof fn law_signed_numbers_have_a_sign(number: nat)
    ensures
        signed_decimal(number as int) == crate::number::decimal(number),
        number > 0 ==> signed_decimal(-(number as int)) == seq!['-'] + crate::number::decimal(
            number,
        ),
{
    reveal_strlit("-");
    assert("-"@ =~= seq!['-']);
}

/// The model of a failure tells it apart from all others.
pub proof fn law_failures_are_modelled(error: RunError)
    ensures
        match error {
            RunError::NoDirectory { cwd } => error@ == Failing::NoDirectory(cwd@),
            RunError::NotStarted { cause } => error@ == Failing::NotStarted(cause@),
            RunError::Exited { code } => error@ == Failing::Exited(code),
            RunError::Killed => error@ == Failing::Killed,
            RunError::Lost { cause } => error@ == Failing::Lost(cause@),
            RunError::Failed { stderr } => error@ == Failing::Failed(stderr@),
        },
{
}

} // verus!
