//! What the commands of the program say and decide.

use crate::elf::{ElfInfo, InspectError};
use crate::number::{pad_left, pad_right, write_decimal};
use crate::path::{file_stem, join_path};
use crate::recipe::{Recipe, Step};
use crate::text::{join_texts, same_text};
use crate::ui::brand::{Palette, Tint, GREY, PINK, PURPLE, RED, TEAL};
use vstd::prelude::*;
use vstd::string::*;

verus! {

/// Why a command fails.
#[derive(Debug)]
pub enum CliError {
    /// There is no Pkl source for a recipe.
    NoSource { path: String },
    /// There is no Pkl source at all.
    NoSources { dir: String },
    /// A path does not end in a file name.
    NoFileName,
    /// Some rendered recipes are out of date.
    Stale { names: Vec<String> },
    /// Some binaries are no position independent executables.
    NotPie { failed: u64, total: u64 },
    /// There is no recipe directory.
    NoRecipes { dir: String, cause: String },
}

impl CliError {
    /// The error in words.
    pub open spec fn words(self) -> Seq<char> {
        match self {
            CliError::NoSource { path } => "no Pkl source at "@ + path@,
            CliError::NoSources { dir } => "no .pkl recipes in "@ + dir@,
            CliError::NoFileName => "recipe path has no file name"@,
            CliError::Stale { names } => crate::text::join(crate::text::texts(names@), ", "@)
                + " out of date with their Pkl sources: run `pie generate`"@,
            CliError::NotPie { failed, total } => crate::number::decimal(failed as nat) + " of "@
                + crate::number::decimal(total as nat) + " binaries are not PIE"@,
            CliError::NoRecipes { dir, cause } => "recipe directory "@ + dir@ + " not found: "@
                + cause@,
        }
    }

    /// The error in words.
    pub fn message(&self) -> (text: String)
        ensures
            text@ == self.words(),
    {
        match self {
            CliError::NoSource { path } => {
                let mut text = "no Pkl source at ".to_owned();
                text.append(path.as_str());
                text
            },
            CliError::NoSources { dir } => {
                let mut text = "no .pkl recipes in ".to_owned();
                text.append(dir.as_str());
                text
            },
            CliError::NoFileName => "recipe path has no file name".to_owned(),
            CliError::Stale { names } => {
                let mut text = join_texts(names, ", ");
                text.append(" out of date with their Pkl sources: run `pie generate`");
                text
            },
            CliError::NotPie { failed, total } => {
                let mut text = write_decimal(*failed);
                text.append(" of ");
                text.append(write_decimal(*total).as_str());
                text.append(" binaries are not PIE");
                text
            },
            CliError::NoRecipes { dir, cause } => {
                let mut text = "recipe directory ".to_owned();
                text.append(dir.as_str());
                text.append(" not found: ");
                text.append(cause.as_str());
                text
            },
        }
    }
}

/// The architecture that is built for on a machine of architecture `arch`.
pub fn host_arch(arch: &str) -> (name: String)
    ensures
        name@ == if arch@ == "aarch64"@ {
            "arm64"@
        } else {
            "x64"@
        },
{
    if same_text(arch, "aarch64") {
        "arm64".to_owned()
    } else {
        "x64".to_owned()
    }
}

/// Whether the recipe directory is there; `cause` is why it is not.
pub fn recipes_hint(dir: &str, cause: Option<String>) -> (result: Result<(), CliError>)
    ensures
        match cause {
            None => result is Ok,
            Some(why) => result matches Err(CliError::NoRecipes { dir: stated, cause: because })
                && stated@ == dir@ && because@ == why@,
        },
{
    match cause {
        None => Ok(()),
        Some(cause) => Err(CliError::NoRecipes { dir: dir.to_owned(), cause }),
    }
}

// -- rendering recipes -------------------------------------------------------

/// The Pkl source of a recipe.
pub open spec fn source_path(dir: Seq<char>, name: Seq<char>) -> Seq<char> {
    crate::path::joined(dir, name + ".pkl"@)
}

/// The Pkl sources of some recipes.
pub fn source_paths(dir: &str, names: &Vec<String>) -> (paths: Vec<String>)
    ensures
        crate::text::texts(paths@) == crate::text::texts(names@).map_values(
            |name: Seq<char>| source_path(dir@, name),
        ),
{
    let ghost all = crate::text::texts(names@);
    let mut paths: Vec<String> = Vec::new();
    let mut i: usize = 0;
    while i < names.len()
        invariant
            i <= names@.len(),
            all == crate::text::texts(names@),
            paths@.len() == i,
            forall|j: int| 0 <= j < i ==> #[trigger] paths@[j]@ == source_path(dir@, all[j]),
        decreases names@.len() - i,
    {
        let mut file = names[i].clone();
        file.append(".pkl");
        paths.push(join_path(dir, file.as_str()));
        i += 1;
    }
    assert(crate::text::texts(paths@) =~= all.map_values(
        |name: Seq<char>| source_path(dir@, name),
    ));
    paths
}

/// The first of some files that is not there.
pub open spec fn first_missing(present: Seq<bool>, from: int) -> Option<int>
    decreases present.len() - from,
{
    if from >= present.len() {
        None
    } else if !present[from] {
        Some(from)
    } else {
        first_missing(present, from + 1)
    }
}

/// Fails where one of the sources asked for is not there. `present` says which are.
pub fn require_sources(paths: &Vec<String>, present: &Vec<bool>) -> (result: Result<(), CliError>)
    requires
        paths@.len() == present@.len(),
    ensures
        match first_missing(present@, 0) {
            None => result is Ok,
            Some(at) => result matches Err(CliError::NoSource { path }) && path@ == paths@[at]@,
        },
{
    let mut i: usize = 0;
    while i < present.len()
        invariant
            i <= present@.len(),
            paths@.len() == present@.len(),
            first_missing(present@, 0) == first_missing(present@, i as int),
        decreases present@.len() - i,
    {
        if !present[i] {
            return Err(CliError::NoSource { path: paths[i].clone() });
        }
        i += 1;
    }
    Ok(())
}

/// Fails where there is nothing to render.
pub fn require_some(dir: &str, sources: &Vec<String>) -> (result: Result<(), CliError>)
    ensures
        if sources@.len() == 0 {
            result matches Err(CliError::NoSources { dir: stated }) && stated@ == dir@
        } else {
            result is Ok
        },
{
    if sources.len() == 0 {
        return Err(CliError::NoSources { dir: dir.to_owned() });
    }
    Ok(())
}

/// The id of the recipe that a source is of, and the file that it is rendered to.
pub fn render_target(dir: &str, source: &str) -> (result: Result<(String, String), CliError>)
    ensures
        match crate::path::stem_of(source@) {
            None => result matches Err(CliError::NoFileName),
            Some(stem) => result matches Ok((id, target)) && id@ == stem && target@ == target_path(
                dir@,
                stem,
            ),
        },
{
    match file_stem(source) {
        None => Err(CliError::NoFileName),
        Some(stem) => {
            let mut file = stem.clone();
            file.append(".yaml");
            Ok((stem, join_path(dir, file.as_str())))
        },
    }
}

/// A rendered recipe.
pub open spec fn rendered_text(source: Seq<char>, body: Seq<char>) -> Seq<char> {
    "# Generated from "@ + source + " by `pie generate` — do not edit.\n#\n"@ + body
}

/// A rendered recipe, of which `body` is what Pkl makes of its source.
pub fn write_rendered(source: &str, body: &str) -> (text: String)
    ensures
        text@ == rendered_text(source@, body@),
{
    let mut text = "# Generated from ".to_owned();
    text.append(source);
    text.append(" by `pie generate` — do not edit.\n#\n");
    text.append(body);
    text
}

/// What is to be done with a rendered recipe.
#[derive(Debug, Clone, Copy, PartialEq, Eq, Structural)]
pub enum Upkeep {
    /// The file holds it already.
    UpToDate,
    /// The file is reported.
    Stale,
    /// The file is written.
    Write,
}

/// What is to be done with a rendered recipe, of which the file holds `current`.
pub open spec fn upkeep_of(current: Option<Seq<char>>, rendered: Seq<char>, check: bool) -> Upkeep {
    let held = match current {
        Some(text) => text,
        None => ""@,
    };
    if held == rendered {
        Upkeep::UpToDate
    } else if check {
        Upkeep::Stale
    } else {
        Upkeep::Write
    }
}

/// What is to be done with a rendered recipe. `current` is what the file holds,
/// where it can be read.
pub fn upkeep(current: Option<String>, rendered: &str, check: bool) -> (upkeep: Upkeep)
    ensures
        upkeep == upkeep_of(crate::text::text_of(current), rendered@, check),
{
    let held = match current {
        Some(text) => text,
        None => "".to_owned(),
    };
    if same_text(held.as_str(), rendered) {
        Upkeep::UpToDate
    } else if check {
        Upkeep::Stale
    } else {
        Upkeep::Write
    }
}

/// What is said of a rendered recipe.
pub open spec fn upkeep_words(palette: Palette, upkeep: Upkeep, id: Seq<char>) -> Seq<char> {
    match upkeep {
        Upkeep::UpToDate => crate::ui::pair_line(
            palette,
            (Tint::Bold(TEAL), "✔"@),
            (Tint::Plain(GREY), id + " up to date"@),
        ),
        Upkeep::Stale => "  "@ + crate::ui::brand::painted(
            palette.enabled,
            Tint::Bold(RED),
            "✖"@,
        ) + " "@ + id + " "@ + crate::ui::brand::painted(
            palette.enabled,
            Tint::Plain(GREY),
            "is stale"@,
        ),
        Upkeep::Write => crate::ui::pair_line(
            palette,
            (Tint::Bold(TEAL), "✔"@),
            (Tint::Plain(PURPLE), id + " written"@),
        ),
    }
}

/// What is said of a rendered recipe.
pub fn upkeep_line(palette: Palette, upkeep: Upkeep, id: &str) -> (line: String)
    ensures
        line@ == upkeep_words(palette, upkeep, id@),
{
    let mut line = "  ".to_owned();
    let mut words = id.to_owned();
    match upkeep {
        Upkeep::UpToDate => {
            words.append(" up to date");
            line.append(palette.ok("✔").as_str());
            line.append(" ");
            line.append(palette.dim(words.as_str()).as_str());
        },
        Upkeep::Stale => {
            line.append(palette.error("✖").as_str());
            line.append(" ");
            line.append(id);
            line.append(" ");
            line.append(palette.dim("is stale").as_str());
        },
        Upkeep::Write => {
            words.append(" written");
            line.append(palette.ok("✔").as_str());
            line.append(" ");
            line.append(palette.name(words.as_str()).as_str());
        },
    }
    line
}

/// What a source comes to.
#[derive(Debug)]
pub struct Settled {
    pub id: String,
    /// The file that the source is rendered to.
    pub target: String,
    /// The rendered recipe.
    pub text: String,
    pub upkeep: Upkeep,
}

/// The model of `Settled`.
pub struct Settling {
    pub id: Seq<char>,
    pub target: Seq<char>,
    pub text: Seq<char>,
    pub upkeep: Upkeep,
}

impl View for Settled {
    type V = Settling;

    open spec fn view(&self) -> Settling {
        Settling {
            id: self.id@,
            target: self.target@,
            text: self.text@,
            upkeep: self.upkeep,
        }
    }
}

/// The file that the source of a recipe is rendered to.
pub open spec fn target_path(dir: Seq<char>, id: Seq<char>) -> Seq<char> {
    crate::path::joined(dir, id + ".yaml"@)
}

/// What a source comes to, of which `body` is what Pkl makes of it and `current` is
/// what its file holds. There is nothing where the source has no file name.
pub open spec fn settling_of(
    dir: Seq<char>,
    source: Seq<char>,
    body: Seq<char>,
    current: Option<Seq<char>>,
    check: bool,
) -> Option<Settling> {
    match crate::path::stem_of(source) {
        None => None,
        Some(id) => Some(
            Settling {
                id,
                target: target_path(dir, id),
                text: rendered_text(source, body),
                upkeep: upkeep_of(current, rendered_text(source, body), check),
            },
        ),
    }
}

/// What the sources of a run came to, by id.
pub open spec fn results_of(results: Seq<(String, Upkeep)>) -> Seq<(Seq<char>, Upkeep)> {
    results.map_values(|result: (String, Upkeep)| (result.0@, result.1))
}

/// Settles a source, of which `body` is what Pkl makes of it and `current` is what
/// its file holds, where it can be read. What it comes to is added to `results`.
pub fn settle(
    results: &mut Vec<(String, Upkeep)>,
    dir: &str,
    source: &str,
    body: &str,
    current: Option<String>,
    check: bool,
) -> (result: Result<Settled, CliError>)
    ensures
        match settling_of(dir@, source@, body@, crate::text::text_of(current), check) {
            None => result matches Err(CliError::NoFileName) && final(results)@ == old(results)@,
            Some(settling) => result matches Ok(settled) && settled@ == settling && results_of(
                final(results)@,
            ) == results_of(old(results)@).push((settling.id, settling.upkeep)),
        },
{
    match render_target(dir, source) {
        Err(error) => Err(error),
        Ok((id, target)) => {
            let text = write_rendered(source, body);
            let upkeep = upkeep(current, text.as_str(), check);
            results.push((id.clone(), upkeep));
            assert(results_of(results@) =~= results_of(old(results)@).push((id@, upkeep)));
            Ok(Settled { id, target, text, upkeep })
        },
    }
}

/// The ids of the rendered recipes that are out of date, in their order.
pub open spec fn stale_names(results: Seq<(Seq<char>, Upkeep)>) -> Seq<Seq<char>> {
    results.filter(|result: (Seq<char>, Upkeep)| result.1 == Upkeep::Stale).map_values(
        |result: (Seq<char>, Upkeep)| result.0,
    )
}

/// What a run comes to: it fails where a rendered recipe is out of date, and names
/// all of them.
pub fn outcome(results: &Vec<(String, Upkeep)>) -> (result: Result<(), CliError>)
    ensures
        if stale_names(results_of(results@)).len() == 0 {
            result is Ok
        } else {
            result matches Err(CliError::Stale { names }) && crate::text::texts(names@)
                == stale_names(results_of(results@))
        },
{
    let ghost all = results_of(results@);
    let mut names: Vec<String> = Vec::new();
    let mut i: usize = 0;
    reveal(Seq::filter);
    assert(crate::text::texts(names@) =~= stale_names(all.take(0)));
    while i < results.len()
        invariant
            i <= results@.len(),
            all == results_of(results@),
            crate::text::texts(names@) == stale_names(all.take(i as int)),
        decreases results@.len() - i,
    {
        let ghost before = crate::text::texts(names@);
        let (id, upkeep) = &results[i];
        assert(all[i as int] == (id@, *upkeep));
        proof {
            assert(all.take(i + 1) =~= all.take(i as int).push(all[i as int]));
            lemma_stale_names_push(all.take(i as int), all[i as int]);
        }
        if *upkeep == Upkeep::Stale {
            names.push(id.clone());
            assert(crate::text::texts(names@) =~= before.push(id@));
        }
        i += 1;
    }
    assert(all.take(i as int) =~= all);
    if names.len() == 0 {
        return Ok(());
    }
    Err(CliError::Stale { names })
}

/// One more result is named where it is out of date.
proof fn lemma_stale_names_push(
    results: Seq<(Seq<char>, Upkeep)>,
    result: (Seq<char>, Upkeep),
)
    ensures
        stale_names(results.push(result)) == if result.1 == Upkeep::Stale {
            stale_names(results).push(result.0)
        } else {
            stale_names(results)
        },
{
    let pred = |result: (Seq<char>, Upkeep)| result.1 == Upkeep::Stale;
    results.lemma_filter_push(result, pred);
    assert(stale_names(results.push(result)) =~= if result.1 == Upkeep::Stale {
        stale_names(results).push(result.0)
    } else {
        stale_names(results)
    });
}

// -- a run over all sources --------------------------------------------------

/// What is left of a run: the texts of the files that can be read, and what the
/// sources came to.
pub struct Run {
    pub files: Map<Seq<char>, Seq<char>>,
    pub results: Seq<(Seq<char>, Upkeep)>,
}

/// What a file holds, where it can be read.
pub open spec fn held(files: Map<Seq<char>, Seq<char>>, path: Seq<char>) -> Option<Seq<char>> {
    if files.contains_key(path) {
        Some(files[path])
    } else {
        None
    }
}

/// A run over some sources, one after the other: each is settled against what its
/// file holds by then, and written where that is due. `body` is what Pkl makes of a
/// source. There is no such run where a source has no file name.
pub open spec fn run_of(
    dir: Seq<char>,
    sources: Seq<Seq<char>>,
    body: spec_fn(Seq<char>) -> Seq<char>,
    files: Map<Seq<char>, Seq<char>>,
    check: bool,
) -> Option<Run>
    decreases sources.len(),
{
    if sources.len() == 0 {
        Some(Run { files, results: seq![] })
    } else {
        match (
            run_of(dir, sources.drop_last(), body, files, check),
            crate::path::stem_of(sources.last()),
        ) {
            (Some(before), Some(id)) => match settling_of(
                dir,
                sources.last(),
                body(sources.last()),
                held(before.files, target_path(dir, id)),
                check,
            ) {
                Some(settling) => Some(
                    Run {
                        files: if settling.upkeep == Upkeep::Write {
                            before.files.insert(settling.target, settling.text)
                        } else {
                            before.files
                        },
                        results: before.results.push((settling.id, settling.upkeep)),
                    },
                ),
                None => None,
            },
            _ => None,
        }
    }
}

// -- checking binaries -------------------------------------------------------

/// What was found of a binary.
#[derive(Debug)]
pub struct Verdict {
    pub line: String,
    pub pie: bool,
}

/// What is said of a binary.
pub open spec fn verdict_line(
    palette: Palette,
    path: Seq<char>,
    image: Result<ElfInfo, InspectError>,
) -> Seq<char> {
    let mark = match image {
        Ok(info) => if info@.is_pie() {
            crate::ui::brand::painted(palette.enabled, Tint::Bold(TEAL), "✔"@)
        } else {
            crate::ui::brand::painted(palette.enabled, Tint::Bold(RED), "✖"@)
        },
        Err(_) => crate::ui::brand::painted(palette.enabled, Tint::Bold(RED), "✖"@),
    };
    let remark = match image {
        Ok(info) => crate::ui::brand::painted(
            palette.enabled,
            Tint::Plain(GREY),
            if info@.is_pie() {
                "needs: "@ + crate::text::join(info@.needed, ", "@)
            } else {
                crate::text::join(info@.reasons(), "; "@)
            },
        ),
        Err(error) => error.words(),
    };
    "  "@ + mark + " "@ + path + " "@ + remark
}

/// What was found of a binary.
pub fn verdict(palette: Palette, path: &str, image: &Result<ElfInfo, InspectError>) -> (verdict:
    Verdict)
    ensures
        verdict.pie == (*image matches Ok(info) && info@.is_pie()),
        verdict.line@ == verdict_line(palette, path@, *image),
{
    let mut line = "  ".to_owned();
    match image {
        Ok(info) => {
            let pie = info.is_pie_executable();
            let remark = if pie {
                line.append(palette.ok("✔").as_str());
                let mut needs = "needs: ".to_owned();
                needs.append(join_texts(&info.needed, ", ").as_str());
                needs
            } else {
                line.append(palette.error("✖").as_str());
                info.explain_failure()
            };
            line.append(" ");
            line.append(path);
            line.append(" ");
            line.append(palette.dim(remark.as_str()).as_str());
            Verdict { line, pie }
        },
        Err(error) => {
            line.append(palette.error("✖").as_str());
            line.append(" ");
            line.append(path);
            line.append(" ");
            line.append(error.message().as_str());
            Verdict { line, pie: false }
        },
    }
}

/// How many of some verdicts are negative.
pub open spec fn count_failed(passed: Seq<bool>) -> nat
    decreases passed.len(),
{
    if passed.len() == 0 {
        0
    } else {
        count_failed(passed.drop_last()) + if passed.last() {
            0nat
        } else {
            1nat
        }
    }
}

/// Fails where one of the binaries is no position independent executable.
pub fn tally(passed: &Vec<bool>) -> (result: Result<(), CliError>)
    ensures
        if count_failed(passed@) == 0 {
            result is Ok
        } else {
            result matches Err(CliError::NotPie { failed, total }) && failed == count_failed(
                passed@,
            ) && total == passed@.len()
        },
{
    let mut failed: u64 = 0;
    let mut i: usize = 0;
    while i < passed.len()
        invariant
            i <= passed@.len(),
            failed == count_failed(passed@.take(i as int)),
            failed <= i,
        decreases passed@.len() - i,
    {
        assert(passed@.take(i + 1).drop_last() =~= passed@.take(i as int));
        if !passed[i] {
            failed += 1;
        }
        i += 1;
    }
    assert(passed@.take(i as int) =~= passed@);
    if failed > 0 {
        return Err(CliError::NotPie { failed, total: passed.len() as u64 });
    }
    Ok(())
}

// -- listing recipes ---------------------------------------------------------

/// A recipe in a list.
pub fn list_line(palette: Palette, recipe: &Recipe) -> (line: String)
    ensures
        line@ == crate::ui::pair_line(
            palette,
            (Tint::Plain(PURPLE), crate::number::padded_right(recipe.name@, 10)),
            (
                Tint::Plain(GREY),
                match recipe.description {
                    Some(description) => description@,
                    None => ""@,
                },
            ),
        ),
{
    let description = match &recipe.description {
        Some(description) => description.as_str(),
        None => "",
    };
    let mut line = "  ".to_owned();
    line.append(palette.name(pad_right(recipe.name.as_str(), 10).as_str()).as_str());
    line.append(" ");
    line.append(palette.dim(description).as_str());
    line
}

/// A recipe in a list that could not be read.
pub fn unreadable_line(palette: Palette, name: &str) -> (line: String)
    ensures
        line@ == crate::ui::pair_line(
            palette,
            (Tint::Bold(RED), crate::number::padded_right(name@, 10)),
            (Tint::Plain(GREY), "(unreadable)"@),
        ),
{
    let mut line = "  ".to_owned();
    line.append(palette.error(pad_right(name, 10).as_str()).as_str());
    line.append(" ");
    line.append(palette.dim("(unreadable)").as_str());
    line
}

// -- showing a recipe --------------------------------------------------------

/// A labelled value.
pub open spec fn labelled(palette: Palette, label: Seq<char>, value: Seq<char>) -> Seq<char> {
    "  "@ + crate::ui::brand::painted(
        palette.enabled,
        Tint::Plain(GREY),
        crate::number::padded_left(label, 14),
    ) + " "@ + value
}

/// A labelled value.
fn write_labelled(palette: Palette, label: &str, value: &str) -> (line: String)
    ensures
        line@ == labelled(palette, label@, value@),
{
    let mut line = "  ".to_owned();
    line.append(palette.label(label, 14).as_str());
    line.append(" ");
    line.append(value);
    line
}

/// A line where there is one to show.
pub open spec fn optional(line: Option<Seq<char>>) -> Seq<Seq<char>> {
    match line {
        Some(line) => seq![line],
        None => seq![],
    }
}

/// A labelled list, where it holds anything.
pub open spec fn optional_list(
    palette: Palette,
    label: Seq<char>,
    list: Seq<String>,
    separator: Seq<char>,
) -> Seq<Seq<char>> {
    if list.len() == 0 {
        seq![]
    } else {
        seq![labelled(palette, label, crate::text::join(crate::text::texts(list), separator))]
    }
}

/// The heading of a section.
pub open spec fn section(palette: Palette, name: Seq<char>) -> Seq<char> {
    "\n  "@ + crate::ui::brand::painted(palette.enabled, Tint::Bold(PINK), name)
}

/// A step of a build.
pub open spec fn step_line(palette: Palette, at: int, step: Step) -> Seq<char> {
    "  "@ + crate::number::padded_left(crate::number::decimal((at + 1) as nat), 3) + ". "@
        + crate::ui::brand::painted(palette.enabled, Tint::Plain(PURPLE), step.name@)
        + crate::ui::brand::painted(
        palette.enabled,
        Tint::Plain(GREY),
        match step.when {
            Some(option) => "  (only with --with "@ + option@ + ")"@,
            None => ""@,
        },
    )
}

/// A section of lines, where there are any.
pub open spec fn optional_section(palette: Palette, name: Seq<char>, list: Seq<String>) -> Seq<
    Seq<char>,
> {
    if list.len() == 0 {
        seq![]
    } else {
        seq![section(palette, name)] + crate::text::texts(list).map_values(
            |text: Seq<char>| "       "@ + text,
        )
    }
}

/// What a recipe builds, at the head of what is shown of it.
pub open spec fn show_head(palette: Palette, recipe: Recipe, path: Seq<char>) -> Seq<Seq<char>> {
    seq![
        ""@,
        "  "@ + crate::ui::brand::painted(palette.enabled, Tint::Bold(PINK), recipe.heading()),
    ] + optional(
        match recipe.description {
            Some(description) => Some(
                "  "@ + crate::ui::brand::painted(
                    palette.enabled,
                    Tint::Plain(GREY),
                    description@,
                ),
            ),
            None => None,
        },
    ) + seq![""@, labelled(palette, "recipe"@, path)] + optional(
        match recipe.homepage {
            Some(homepage) => Some(labelled(palette, "homepage"@, homepage@)),
            None => None,
        },
    ) + seq![
        labelled(
            palette,
            "source"@,
            match recipe.source {
                Some(source) => source.url@,
                None => crate::ui::brand::painted(
                    palette.enabled,
                    Tint::Plain(GREY),
                    "fetched by the recipe's own build steps"@,
                ),
            },
        ),
    ]
}

/// What is shown of a recipe.
pub open spec fn show_lines(palette: Palette, recipe: Recipe, path: Seq<char>) -> Seq<Seq<char>> {
    show_head(palette, recipe, path) + optional_list(
        palette,
        "aliases"@,
        recipe.version.aliases@,
        ", "@,
    ) + seq![
        labelled(
            palette,
            "artifact"@,
            recipe.package.name@ + "."@ + recipe.package.format.suffix(),
        ),
    ] + optional_list(palette, "apt"@, recipe.dependencies.apt@, " "@) + optional_list(
        palette,
        "dnf"@,
        recipe.dependencies.dnf@,
        " "@,
    ) + seq![section(palette, "build"@)] + Seq::new(
        recipe.build@.len(),
        |i: int| step_line(palette, i, recipe.build@[i]),
    ) + optional_section(palette, "must be PIE"@, recipe.verify.pie@) + optional_section(
        palette,
        "notes"@,
        recipe.notes@,
    ) + seq![""@]
}

/// Adds a line.
fn put(lines: &mut Vec<String>, line: String)
    ensures
        crate::text::texts(final(lines)@) == crate::text::texts(old(lines)@) + seq![line@],
{
    let ghost before = crate::text::texts(lines@);
    let ghost text = line@;
    lines.push(line);
    assert(crate::text::texts(lines@) =~= before + seq![text]);
}

/// Adds a labelled list, where it holds anything.
fn put_list(
    lines: &mut Vec<String>,
    palette: Palette,
    label: &str,
    list: &Vec<String>,
    separator: &str,
)
    ensures
        crate::text::texts(final(lines)@) == crate::text::texts(old(lines)@) + optional_list(
            palette,
            label@,
            list@,
            separator@,
        ),
{
    if list.len() > 0 {
        put(lines, write_labelled(palette, label, join_texts(list, separator).as_str()));
    } else {
        assert(crate::text::texts(lines@) =~= crate::text::texts(lines@) + Seq::<
            Seq<char>,
        >::empty());
    }
}

/// Adds the heading of a section.
fn put_heading(lines: &mut Vec<String>, palette: Palette, name: &str)
    ensures
        crate::text::texts(final(lines)@) == crate::text::texts(old(lines)@) + seq![
            section(palette, name@),
        ],
{
    let mut line = "\n  ".to_owned();
    line.append(palette.title(name).as_str());
    put(lines, line);
}

/// Adds a section of lines, where there are any.
fn put_section(lines: &mut Vec<String>, palette: Palette, name: &str, list: &Vec<String>)
    ensures
        crate::text::texts(final(lines)@) == crate::text::texts(old(lines)@) + optional_section(
            palette,
            name@,
            list@,
        ),
{
    let ghost start = crate::text::texts(lines@);
    if list.len() == 0 {
        assert(start =~= start + Seq::<Seq<char>>::empty());
        return;
    }
    put_heading(lines, palette, name);
    let ghost head = section(palette, name@);
    let ghost all = crate::text::texts(list@);
    let ghost indent = |text: Seq<char>| "       "@ + text;
    let mut i: usize = 0;
    assert(crate::text::texts(lines@) =~= start + (seq![head] + all.take(0).map_values(indent)));
    while i < list.len()
        invariant
            i <= list@.len(),
            all == crate::text::texts(list@),
            indent == (|text: Seq<char>| "       "@ + text),
            crate::text::texts(lines@) == start + (seq![head] + all.take(i as int).map_values(
                indent,
            )),
        decreases list@.len() - i,
    {
        let mut line = "       ".to_owned();
        line.append(list[i].as_str());
        assert(line@ == indent(all[i as int]));
        put(lines, line);
        assert(all.take(i + 1) =~= all.take(i as int).push(all[i as int]));
        i += 1;
        assert(crate::text::texts(lines@) =~= start + (seq![head] + all.take(
            i as int,
        ).map_values(indent)));
    }
    assert(all.take(i as int) =~= all);
}

/// Adds what a recipe builds.
fn put_head(lines: &mut Vec<String>, palette: Palette, recipe: &Recipe, path: &str)
    ensures
        crate::text::texts(final(lines)@) == crate::text::texts(old(lines)@) + show_head(
            palette,
            *recipe,
            path@,
        ),
{
    let ghost start = crate::text::texts(lines@);
    put(lines, "".to_owned());
    let mut title = "  ".to_owned();
    title.append(palette.title(recipe.title()).as_str());
    put(lines, title);
    match &recipe.description {
        Some(description) => {
            let mut line = "  ".to_owned();
            line.append(palette.dim(description.as_str()).as_str());
            put(lines, line);
        },
        None => {},
    }
    put(lines, "".to_owned());
    put(lines, write_labelled(palette, "recipe", path));
    match &recipe.homepage {
        Some(homepage) => {
            put(lines, write_labelled(palette, "homepage", homepage.as_str()));
        },
        None => {},
    }
    match &recipe.source {
        Some(source) => {
            put(lines, write_labelled(palette, "source", source.url.as_str()));
        },
        None => {
            let remark = palette.dim("fetched by the recipe's own build steps");
            put(lines, write_labelled(palette, "source", remark.as_str()));
        },
    }
    assert(crate::text::texts(lines@) =~= start + show_head(palette, *recipe, path@));
}

/// Adds the steps of a build.
fn put_steps(lines: &mut Vec<String>, palette: Palette, steps: &Vec<Step>)
    ensures
        crate::text::texts(final(lines)@) == crate::text::texts(old(lines)@) + Seq::new(
            steps@.len(),
            |i: int| step_line(palette, i, steps@[i]),
        ),
{
    let ghost start = crate::text::texts(lines@);
    let mut i: usize = 0;
    assert(start =~= start + Seq::new(0, |k: int| step_line(palette, k, steps@[k])));
    while i < steps.len()
        invariant
            i <= steps@.len(),
            crate::text::texts(lines@) == start + Seq::new(
                i as nat,
                |k: int| step_line(palette, k, steps@[k]),
            ),
        decreases steps@.len() - i,
    {
        let step = &steps[i];
        let condition = match &step.when {
            Some(option) => {
                let mut condition = "  (only with --with ".to_owned();
                condition.append(option.as_str());
                condition.append(")");
                condition
            },
            None => "".to_owned(),
        };
        let mut line = "  ".to_owned();
        line.append(pad_left(write_decimal(i as u64 + 1).as_str(), 3).as_str());
        line.append(". ");
        line.append(palette.name(step.name.as_str()).as_str());
        line.append(palette.dim(condition.as_str()).as_str());
        assert(line@ == step_line(palette, i as int, steps@[i as int]));
        put(lines, line);
        i += 1;
        assert(crate::text::texts(lines@) =~= start + Seq::new(
            i as nat,
            |k: int| step_line(palette, k, steps@[k]),
        ));
    }
}

/// What is shown of a recipe.
pub fn show(palette: Palette, recipe: &Recipe, path: &str) -> (lines: Vec<String>)
    ensures
        crate::text::texts(lines@) == show_lines(palette, *recipe, path@),
{
    let mut lines: Vec<String> = Vec::new();
    assert(crate::text::texts(lines@) =~= seq![]);
    put_head(&mut lines, palette, recipe, path);
    assert(crate::text::texts(lines@) =~= show_head(palette, *recipe, path@));
    put_list(&mut lines, palette, "aliases", &recipe.version.aliases, ", ");
    let mut artifact = recipe.package.name.clone();
    artifact.append(".");
    artifact.append(recipe.package.format.extension());
    put(&mut lines, write_labelled(palette, "artifact", artifact.as_str()));
    put_list(&mut lines, palette, "apt", &recipe.dependencies.apt, " ");
    put_list(&mut lines, palette, "dnf", &recipe.dependencies.dnf, " ");
    put_heading(&mut lines, palette, "build");
    put_steps(&mut lines, palette, &recipe.build);
    put_section(&mut lines, palette, "must be PIE", &recipe.verify.pie);
    put_section(&mut lines, palette, "notes", &recipe.notes);
    put(&mut lines, "".to_owned());
    lines
}

// -- laws --------------------------------------------------------------------

/// A recipe that was just rendered is up to date, and no check reports it.
pub proof fn law_rendering_settles(source: Seq<char>, body: Seq<char>, check: bool)
    ensures
        upkeep_of(Some(rendered_text(source, body)), rendered_text(source, body), check)
            == Upkeep::UpToDate,
{
}

/// A check never writes.
pub proof fn law_check_never_writes(current: Option<Seq<char>>, rendered: Seq<char>)
    ensures
        upkeep_of(current, rendered, true) != Upkeep::Write,
{
}

/// The file of a source does not hold what the source is rendered to.
pub open spec fn is_stale(
    dir: Seq<char>,
    source: Seq<char>,
    body: spec_fn(Seq<char>) -> Seq<char>,
    files: Map<Seq<char>, Seq<char>>,
) -> bool {
    match crate::path::stem_of(source) {
        Some(id) => held(files, target_path(dir, id)) != Some(rendered_text(source, body(source))),
        None => false,
    }
}

/// The ids of the sources whose files do not hold what they are rendered to, in
/// their order.
pub open spec fn stale_ids(
    dir: Seq<char>,
    sources: Seq<Seq<char>>,
    body: spec_fn(Seq<char>) -> Seq<char>,
    files: Map<Seq<char>, Seq<char>>,
) -> Seq<Seq<char>> {
    sources.filter(|source: Seq<char>| is_stale(dir, source, body, files)).map_values(
        |source: Seq<char>| crate::path::stem_of(source)->Some_0,
    )
}

/// A rendered recipe is never empty, so a file that cannot be read is out of date.
proof fn lemma_upkeep(current: Option<Seq<char>>, source: Seq<char>, body: Seq<char>, check: bool)
    ensures
        upkeep_of(current, rendered_text(source, body), check) == if current == Some(
            rendered_text(source, body),
        ) {
            Upkeep::UpToDate
        } else if check {
            Upkeep::Stale
        } else {
            Upkeep::Write
        },
{
    reveal_strlit("# Generated from ");
    reveal_strlit("");
    assert(rendered_text(source, body).len() > 0);
}

/// A check writes no file, and names every source whose file is missing or differs
/// from what the source is rendered to, not only the first. It fails exactly where
/// there is one.
pub proof fn law_check_names_every_stale_source(
    dir: Seq<char>,
    sources: Seq<Seq<char>>,
    body: spec_fn(Seq<char>) -> Seq<char>,
    files: Map<Seq<char>, Seq<char>>,
    run: Run,
)
    requires
        run_of(dir, sources, body, files, true) == Some(run),
    ensures
        run.files == files,
        stale_names(run.results) == stale_ids(dir, sources, body, files),
        stale_names(run.results).len() == 0 <==> forall|i: int|
            0 <= i < sources.len() ==> !is_stale(dir, #[trigger] sources[i], body, files),
    decreases sources.len(),
{
    let pred = |source: Seq<char>| is_stale(dir, source, body, files);
    reveal(Seq::filter);
    if sources.len() == 0 {
        assert(stale_names(run.results) =~= stale_ids(dir, sources, body, files));
    } else {
        let front = sources.drop_last();
        let source = sources.last();
        let before = run_of(dir, front, body, files, true)->Some_0;
        let id = crate::path::stem_of(source)->Some_0;
        law_check_names_every_stale_source(dir, front, body, files, before);
        lemma_upkeep(held(files, target_path(dir, id)), source, body(source), true);
        lemma_stale_names_push(before.results, run.results.last());
        assert(run.results =~= before.results.push(run.results.last()));
        assert(sources =~= front.push(source));
        front.lemma_filter_push(source, pred);
        assert(stale_names(run.results) =~= stale_ids(dir, sources, body, files));
        if stale_names(run.results).len() == 0 {
            assert forall|i: int| 0 <= i < sources.len() implies !is_stale(
                dir,
                #[trigger] sources[i],
                body,
                files,
            ) by {
                if i < front.len() {
                    assert(!is_stale(dir, front[i], body, files));
                }
            }
        } else if !is_stale(dir, source, body, files) {
            let i = choose|i: int|
                0 <= i < front.len() && is_stale(dir, #[trigger] front[i], body, files);
            assert(is_stale(dir, sources[i], body, files));
        }
    }
}

/// The file of every source holds what the source is rendered to.
pub open spec fn is_settled(
    dir: Seq<char>,
    sources: Seq<Seq<char>>,
    body: spec_fn(Seq<char>) -> Seq<char>,
    files: Map<Seq<char>, Seq<char>>,
) -> bool {
    forall|i: int|
        0 <= i < sources.len() ==> crate::path::stem_of(#[trigger] sources[i]) is Some && !is_stale(
            dir,
            sources[i],
            body,
            files,
        )
}

/// Where every file holds what its source is rendered to, a run finds every one up
/// to date, leaves the files as they are, and succeeds, whether it checks or not.
pub proof fn law_settled_files_are_left_alone(
    dir: Seq<char>,
    sources: Seq<Seq<char>>,
    body: spec_fn(Seq<char>) -> Seq<char>,
    files: Map<Seq<char>, Seq<char>>,
    check: bool,
)
    requires
        is_settled(dir, sources, body, files),
    ensures
        run_of(dir, sources, body, files, check) matches Some(run) && run.files == files
            && run.results.len() == sources.len() && (forall|i: int|
            0 <= i < sources.len() ==> #[trigger] run.results[i] == (
                crate::path::stem_of(sources[i])->Some_0,
                Upkeep::UpToDate,
            )) && stale_names(run.results).len() == 0,
    decreases sources.len(),
{
    reveal(Seq::filter);
    if sources.len() > 0 {
        let front = sources.drop_last();
        let source = sources.last();
        let id = crate::path::stem_of(source)->Some_0;
        assert forall|i: int| 0 <= i < front.len() implies crate::path::stem_of(
            #[trigger] front[i],
        ) is Some && !is_stale(dir, front[i], body, files) by {
            assert(front[i] == sources[i]);
        }
        law_settled_files_are_left_alone(dir, front, body, files, check);
        assert(crate::path::stem_of(sources[sources.len() - 1]) is Some && !is_stale(
            dir,
            sources[sources.len() - 1],
            body,
            files,
        ));
        lemma_upkeep(held(files, target_path(dir, id)), source, body(source), check);
        let before = run_of(dir, front, body, files, check)->Some_0;
        let run = run_of(dir, sources, body, files, check)->Some_0;
        lemma_stale_names_push(before.results, run.results.last());
        assert(run.results =~= before.results.push(run.results.last()));
    }
}

/// A run that writes leaves the file of every source with what the source is
/// rendered to, as long as no two sources share a file.
proof fn lemma_run_settles(
    dir: Seq<char>,
    sources: Seq<Seq<char>>,
    body: spec_fn(Seq<char>) -> Seq<char>,
    files: Map<Seq<char>, Seq<char>>,
    run: Run,
)
    requires
        run_of(dir, sources, body, files, false) == Some(run),
        forall|i: int, j: int|
            0 <= i < sources.len() && 0 <= j < sources.len() && target_path(
                dir,
                crate::path::stem_of(#[trigger] sources[i])->Some_0,
            ) == target_path(dir, crate::path::stem_of(#[trigger] sources[j])->Some_0) ==> sources[i]
                == sources[j],
    ensures
        is_settled(dir, sources, body, run.files),
    decreases sources.len(),
{
    if sources.len() > 0 {
        let front = sources.drop_last();
        let source = sources.last();
        let before = run_of(dir, front, body, files, false)->Some_0;
        let id = crate::path::stem_of(source)->Some_0;
        assert forall|i: int, j: int|
            0 <= i < front.len() && 0 <= j < front.len() && target_path(
                dir,
                crate::path::stem_of(#[trigger] front[i])->Some_0,
            ) == target_path(dir, crate::path::stem_of(#[trigger] front[j])->Some_0) implies front[i]
            == front[j] by {
            assert(front[i] == sources[i] && front[j] == sources[j]);
        }
        lemma_run_settles(dir, front, body, files, before);
        lemma_upkeep(held(before.files, target_path(dir, id)), source, body(source), false);
        assert forall|i: int| 0 <= i < sources.len() implies crate::path::stem_of(
            #[trigger] sources[i],
        ) is Some && !is_stale(dir, sources[i], body, run.files) by {
            if i < front.len() {
                assert(crate::path::stem_of(front[i]) is Some && !is_stale(
                    dir,
                    front[i],
                    body,
                    before.files,
                ));
                assert(sources[sources.len() - 1] == source);
            }
        }
    }
}

/// The id that the source of a recipe gives it: the name that was asked for, except
/// that a file name without a stem keeps its dot.
pub open spec fn id_of(name: Seq<char>) -> Seq<char> {
    if name.len() == 0 {
        ".pkl"@
    } else {
        name
    }
}

/// A name without a separator gives its source that name as its stem.
proof fn lemma_source_stem(dir: Seq<char>, name: Seq<char>)
    requires
        crate::text::last_of(name, '/') is None,
    ensures
        crate::path::stem_of(source_path(dir, name)) == Some(id_of(name)),
{
    reveal_strlit(".pkl");
    let file = name + ".pkl"@;
    crate::text::lemma_last_of(name, '/');
    crate::text::lemma_last_of(file, '/');
    crate::text::lemma_last_of(file, '.');
    assert(forall|i: int| 0 <= i < name.len() ==> file[i] == name[i]);
    assert(file[name.len() as int] == '.');
    assert(file.len() >= 4);
    crate::path::lemma_joined_name(dir, file);
    let at = crate::text::last_of(file, '.')->Some_0;
    assert(at == name.len());
    if name.len() == 0 {
        assert(file =~= ".pkl"@);
    } else {
        assert(file.take(at) =~= name);
    }
}

/// Rendering settles: after a run over all the recipes asked for has written what was
/// due, a second run finds every file up to date, writes none, and succeeds, whether
/// it checks or not. The names are those of recipes, which hold no separator; and not
/// both of the two that are rendered to one file.
pub proof fn law_second_run_finds_nothing_to_do(
    dir: Seq<char>,
    names: Seq<Seq<char>>,
    body: spec_fn(Seq<char>) -> Seq<char>,
    files: Map<Seq<char>, Seq<char>>,
    check: bool,
)
    requires
        forall|i: int|
            0 <= i < names.len() ==> crate::text::last_of(#[trigger] names[i], '/') is None,
        !(names.contains(""@) && names.contains(".pkl"@)),
    ensures
        ({
            let sources = names.map_values(|name: Seq<char>| source_path(dir, name));
            &&& run_of(dir, sources, body, files, false) is Some
            &&& run_of(
                dir,
                sources,
                body,
                run_of(dir, sources, body, files, false)->Some_0.files,
                check,
            ) matches Some(again) && again.files == run_of(
                dir,
                sources,
                body,
                files,
                false,
            )->Some_0.files && again.results.len() == names.len() && (forall|i: int|
                0 <= i < names.len() ==> (#[trigger] again.results[i]).1 == Upkeep::UpToDate)
                && stale_names(again.results).len() == 0
        }),
{
    let sources = names.map_values(|name: Seq<char>| source_path(dir, name));
    reveal_strlit("");
    reveal_strlit(".pkl");
    reveal_strlit(".yaml");
    assert forall|i: int| 0 <= i < sources.len() implies crate::path::stem_of(
        #[trigger] sources[i],
    ) == Some(id_of(names[i])) by {
        lemma_source_stem(dir, names[i]);
    }
    lemma_run_exists(dir, sources, body, files, false);
    assert forall|i: int, j: int|
        0 <= i < sources.len() && 0 <= j < sources.len() && target_path(
            dir,
            crate::path::stem_of(#[trigger] sources[i])->Some_0,
        ) == target_path(dir, crate::path::stem_of(#[trigger] sources[j])->Some_0) implies sources[i]
        == sources[j] by {
        let a = id_of(names[i]) + ".yaml"@;
        let b = id_of(names[j]) + ".yaml"@;
        crate::text::lemma_last_of(names[i], '/');
        crate::text::lemma_last_of(names[j], '/');
        assert(a[0] == id_of(names[i])[0] && b[0] == id_of(names[j])[0]);
        crate::path::lemma_joined_injective(dir, a, b);
        assert(a.take(a.len() - 5) =~= id_of(names[i]));
        assert(b.take(b.len() - 5) =~= id_of(names[j]));
        if names[i] != names[j] {
            if names[i].len() == 0 {
                assert(names[i] =~= ""@);
                assert(names.contains(names[i]) && names.contains(names[j]));
            } else if names[j].len() == 0 {
                assert(names[j] =~= ""@);
                assert(names.contains(names[i]) && names.contains(names[j]));
            }
        }
    }
    let first = run_of(dir, sources, body, files, false)->Some_0;
    lemma_run_settles(dir, sources, body, files, first);
    law_settled_files_are_left_alone(dir, sources, body, first.files, check);
}

/// There is a run over sources that all have file names.
proof fn lemma_run_exists(
    dir: Seq<char>,
    sources: Seq<Seq<char>>,
    body: spec_fn(Seq<char>) -> Seq<char>,
    files: Map<Seq<char>, Seq<char>>,
    check: bool,
)
    requires
        forall|i: int|
            0 <= i < sources.len() ==> crate::path::stem_of(#[trigger] sources[i]) is Some,
    ensures
        run_of(dir, sources, body, files, check) is Some,
    decreases sources.len(),
{
    if sources.len() > 0 {
        let front = sources.drop_last();
        assert forall|i: int| 0 <= i < front.len() implies crate::path::stem_of(
            #[trigger] front[i],
        ) is Some by {
            assert(front[i] == sources[i]);
        }
        lemma_run_exists(dir, front, body, files, check);
        assert(crate::path::stem_of(sources[sources.len() - 1]) is Some);
    }
}

/// No binary fails where all of them are position independent executables, and only
/// there.
pub proof fn law_one_failure_fails_all(passed: Seq<bool>)
    ensures
        count_failed(passed) <= passed.len(),
        count_failed(passed) == 0 <==> forall|i: int|
            0 <= i < passed.len() ==> #[trigger] passed[i],
    decreases passed.len(),
{
    if passed.len() > 0 {
        let front = passed.drop_last();
        law_one_failure_fails_all(front);
        if count_failed(passed) == 0 {
            assert forall|i: int| 0 <= i < passed.len() implies #[trigger] passed[i] by {
                if i < front.len() {
                    assert(front[i]);
                }
            }
        } else if passed.last() {
            let i = choose|i: int| 0 <= i < front.len() && !front[i];
            assert(!passed[i]);
        }
    }
}

/// Every failure counts once.
pub proof fn law_every_failure_counts(passed: Seq<bool>, last: bool)
    ensures
        count_failed(Seq::empty()) == 0,
        count_failed(passed.push(last)) == count_failed(passed) + if last {
            0int
        } else {
            1
        },
{
    assert(passed.push(last).drop_last() =~= passed);
}

/// The source that is reported as missing is the first that is; none is only where
/// all are there.
pub proof fn law_first_missing_source_is_reported(present: Seq<bool>, from: int)
    requires
        0 <= from,
    ensures
        match first_missing(present, from) {
            Some(at) => from <= at < present.len() && !present[at] && forall|i: int|
                from <= i < at ==> #[trigger] present[i],
            None => forall|i: int| from <= i < present.len() ==> #[trigger] present[i],
        },
    decreases present.len() - from,
{
    if from < present.len() {
        law_first_missing_source_is_reported(present, from + 1);
    }
}

/// Recipes that are out of date are named, all of them and in their order.
pub proof fn law_stale_recipes_are_named(
    results: Seq<(Seq<char>, Upkeep)>,
    id: Seq<char>,
    upkeep: Upkeep,
)
    ensures
        stale_names(Seq::empty()).len() == 0,
        stale_names(results.push((id, upkeep))) == (if upkeep is Stale {
            stale_names(results).push(id)
        } else {
            stale_names(results)
        }),
{
    reveal(Seq::filter);
    lemma_stale_names_push(results, (id, upkeep));
}

/// A file is left alone exactly where it holds what was rendered; otherwise a check
/// reports it, and a run that does not check writes it.
pub proof fn law_files_that_differ_are_renewed(
    current: Seq<char>,
    rendered: Seq<char>,
    check: bool,
)
    ensures
        upkeep_of(Some(current), rendered, check) is UpToDate <==> current == rendered,
        rendered.len() > 0 ==> !(upkeep_of(None, rendered, check) is UpToDate),
        current != rendered ==> (upkeep_of(Some(current), rendered, check) is Stale <==> check),
        rendered.len() > 0 ==> (upkeep_of(None, rendered, check) is Stale <==> check),
{
    reveal_strlit("");
}

/// The source `<name>.pkl` is rendered to `<name>.yaml` beside it, which says what it
/// was generated from and then holds what Pkl made of it.
pub proof fn law_sources_are_rendered_beside(
    dir: Seq<char>,
    name: Seq<char>,
    body: Seq<char>,
    current: Option<Seq<char>>,
    check: bool,
)
    requires
        name.len() > 0,
        crate::text::last_of(name, '/') is None,
    ensures
        source_path(dir, name) == crate::path::joined(dir, name + ".pkl"@),
        settling_of(dir, source_path(dir, name), body, current, check) matches Some(settling)
            && settling.id == name && settling.target == crate::path::joined(dir, name + ".yaml"@)
            && body.is_suffix_of(settling.text) && ("# Generated from "@ + source_path(
            dir,
            name,
        )).is_prefix_of(settling.text),
{
    let source = source_path(dir, name);
    lemma_source_stem(dir, name);
    let text = rendered_text(source, body);
    let start = "# Generated from "@ + source;
    assert(text.subrange(text.len() - body.len(), text.len() as int) =~= body);
    assert(text.take(start.len() as int) =~= start);
    assert(start.is_prefix_of(text));
}

/// A verdict marks what passes, names the path, and says what an executable needs or
/// why a file is refused.
pub proof fn law_verdicts_say_why(path: Seq<char>, image: Result<ElfInfo, InspectError>)
    ensures
        verdict_line((Palette { enabled: false }), path, image) == "  "@ + (match image {
            Ok(info) => if info@.is_dyn && info@.has_pie_flag && info@.has_interp {
                "✔"@ + " "@ + path + " "@ + ("needs: "@ + crate::text::join(info@.needed, ", "@))
            } else {
                "✖"@ + " "@ + path + " "@ + crate::text::join(info@.reasons(), "; "@)
            },
            Err(error) => "✖"@ + " "@ + path + " "@ + error.words(),
        }),
{
    let line = verdict_line((Palette { enabled: false }), path, image);
    if let Ok(info) = image {
        let needs = "needs: "@ + crate::text::join(info@.needed, ", "@);
        let reasons = crate::text::join(info@.reasons(), "; "@);
        assert("  "@ + "✔"@ + " "@ + path + " "@ + needs =~= "  "@ + ("✔"@ + " "@ + path + " "@
            + needs));
        assert("  "@ + "✖"@ + " "@ + path + " "@ + reasons =~= "  "@ + ("✖"@ + " "@ + path + " "@
            + reasons));
    }
    if let Err(error) = image {
        assert("  "@ + "✖"@ + " "@ + path + " "@ + error.words() =~= "  "@ + ("✖"@ + " "@ + path
            + " "@ + error.words()));
    }
}

/// What is shown of a recipe lists all its build steps, after each other and
/// numbered from one, and all the paths that must be position independent.
pub proof fn law_every_build_step_is_shown(palette: Palette, recipe: Recipe, path: Seq<char>)
    ensures
        exists|start: int|
            #![trigger show_lines(palette, recipe, path).skip(start)]
            0 <= start && start + recipe.build@.len() <= show_lines(palette, recipe, path).len()
                && forall|i: int|
                0 <= i < recipe.build@.len() ==> #[trigger] show_lines(
                    palette,
                    recipe,
                    path,
                )[start + i] == step_line(palette, i, recipe.build@[i]),
        forall|i: int|
            0 <= i < recipe.verify.pie@.len() ==> show_lines(palette, recipe, path).contains(
                "       "@ + (#[trigger] recipe.verify.pie@[i])@,
            ),
        forall|i: int|
            0 <= i < recipe.notes@.len() ==> show_lines(palette, recipe, path).contains(
                "       "@ + (#[trigger] recipe.notes@[i])@,
            ),
{
    let lines = show_lines(palette, recipe, path);
    let head = show_head(palette, recipe, path) + optional_list(
        palette,
        "aliases"@,
        recipe.version.aliases@,
        ", "@,
    ) + seq![
        labelled(
            palette,
            "artifact"@,
            recipe.package.name@ + "."@ + recipe.package.format.suffix(),
        ),
    ] + optional_list(palette, "apt"@, recipe.dependencies.apt@, " "@) + optional_list(
        palette,
        "dnf"@,
        recipe.dependencies.dnf@,
        " "@,
    ) + seq![section(palette, "build"@)];
    let steps = Seq::new(
        recipe.build@.len(),
        |i: int| step_line(palette, i, recipe.build@[i]),
    );
    let pie = optional_section(palette, "must be PIE"@, recipe.verify.pie@);
    let notes = optional_section(palette, "notes"@, recipe.notes@);
    assert(lines =~= head + steps + pie + notes + seq![""@]);
    let start = head.len() as int;
    assert(lines.skip(start).len() >= 0);
    assert forall|i: int| 0 <= i < recipe.build@.len() implies #[trigger] lines[start + i]
        == step_line(palette, i, recipe.build@[i]) by {
        assert(lines[start + i] == steps[i]);
    }
    assert forall|i: int| 0 <= i < recipe.verify.pie@.len() implies lines.contains(
        "       "@ + (#[trigger] recipe.verify.pie@[i])@,
    ) by {
        assert(pie[i + 1] == "       "@ + recipe.verify.pie@[i]@);
        assert(lines[start + steps.len() + i + 1] == pie[i + 1]);
    }
    assert forall|i: int| 0 <= i < recipe.notes@.len() implies lines.contains(
        "       "@ + (#[trigger] recipe.notes@[i])@,
    ) by {
        assert(notes[i + 1] == "       "@ + recipe.notes@[i]@);
        assert(lines[start + steps.len() + pie.len() + i + 1] == notes[i + 1]);
    }
}

/// What is shown of a recipe names its file, where its source comes from and the
/// artifact, and what else the recipe sets: a homepage, aliases and packages.
pub proof fn law_recipes_are_shown_with_their_facts(
    palette: Palette,
    recipe: Recipe,
    path: Seq<char>,
)
    requires
        !palette.enabled,
    ensures
        ({
            let lines = show_lines(palette, recipe, path);
            let fact = |label: Seq<char>, value: Seq<char>|
                "  "@ + crate::number::padded_left(label, 14) + " "@ + value;
            &&& lines.contains("  "@ + recipe.heading())
            &&& lines.contains(fact("recipe"@, path))
            &&& recipe.source matches Some(source) ==> lines.contains(fact("source"@, source.url@))
            &&& recipe.homepage matches Some(page) ==> lines.contains(fact("homepage"@, page@))
            &&& recipe.description matches Some(text) ==> lines.contains("  "@ + text@)
            &&& lines.contains(
                fact("artifact"@, recipe.package.name@ + "."@ + recipe.package.format.suffix()),
            )
            &&& recipe.version.aliases@.len() > 0 ==> lines.contains(
                fact(
                    "aliases"@,
                    crate::text::join(crate::text::texts(recipe.version.aliases@), ", "@),
                ),
            )
            &&& recipe.dependencies.apt@.len() > 0 ==> lines.contains(
                fact(
                    "apt"@,
                    crate::text::join(crate::text::texts(recipe.dependencies.apt@), " "@),
                ),
            )
            &&& recipe.dependencies.dnf@.len() > 0 ==> lines.contains(
                fact(
                    "dnf"@,
                    crate::text::join(crate::text::texts(recipe.dependencies.dnf@), " "@),
                ),
            )
        }),
{
    let lines = show_lines(palette, recipe, path);
    let head = show_head(palette, recipe, path);
    let aliases = optional_list(palette, "aliases"@, recipe.version.aliases@, ", "@);
    let apt = optional_list(palette, "apt"@, recipe.dependencies.apt@, " "@);
    let dnf = optional_list(palette, "dnf"@, recipe.dependencies.dnf@, " "@);
    assert(lines[1] == head[1]);
    let described: int = if recipe.description is Some {
        1
    } else {
        0
    };
    let homed: int = if recipe.homepage is Some {
        1
    } else {
        0
    };
    if recipe.description is Some {
        assert(lines[2] == head[2]);
    }
    assert(head[3 + described] == labelled(palette, "recipe"@, path));
    assert(lines[3 + described] == head[3 + described]);
    if recipe.homepage is Some {
        assert(lines[4 + described] == head[4 + described]);
    }
    assert(head.len() == 5 + described + homed);
    assert(lines[4 + described + homed] == head[4 + described + homed]);
    let at = (head.len() + aliases.len()) as int;
    if recipe.version.aliases@.len() > 0 {
        assert(lines[head.len() as int] == aliases[0]);
    }
    assert(lines[at] == labelled(
        palette,
        "artifact"@,
        recipe.package.name@ + "."@ + recipe.package.format.suffix(),
    ));
    if recipe.dependencies.apt@.len() > 0 {
        assert(lines[at + 1] == apt[0]);
    }
    if recipe.dependencies.dnf@.len() > 0 {
        assert(lines[at + 1 + apt.len()] == dnf[0]);
    }
}

/// A step is shown with its number, its name and the option that it asks for.
pub proof fn law_steps_are_shown_with_their_option(palette: Palette, at: nat, step: Step)
    requires
        !palette.enabled,
    ensures
        step.when is None ==> step_line(palette, at as int, step) == "  "@
            + crate::number::padded_left(crate::number::decimal(at + 1), 3) + ". "@ + step.name@,
        step.when matches Some(option) ==> step_line(palette, at as int, step) == "  "@
            + crate::number::padded_left(crate::number::decimal(at + 1), 3) + ". "@ + step.name@ + (
        "  (only with --with "@ + option@ + ")"@),
{
    reveal_strlit("");
    let line = "  "@ + crate::number::padded_left(crate::number::decimal(at + 1), 3) + ". "@
        + step.name@;
    assert(line + ""@ =~= line);
}

/// What became of a recipe is told in a word.
pub proof fn law_upkeep_is_told(palette: Palette, id: Seq<char>)
    requires
        !palette.enabled,
    ensures
        upkeep_words(palette, Upkeep::UpToDate, id) == "  "@ + "✔"@ + " "@ + (id + " up to date"@),
        upkeep_words(palette, Upkeep::Stale, id) == "  "@ + "✖"@ + " "@ + id + " "@ + "is stale"@,
        upkeep_words(palette, Upkeep::Write, id) == "  "@ + "✔"@ + " "@ + (id + " written"@),
{
}

/// The models of what sources came to say all of it.
pub proof fn law_models_say_what_sources_came_to(
    settled: Settled,
    results: Seq<(String, Upkeep)>,
)
    ensures
        settled@.id == settled.id@,
        settled@.target == settled.target@,
        settled@.text == settled.text@,
        settled@.upkeep == settled.upkeep,
        results_of(results).len() == results.len(),
        forall|i: int|
            0 <= i < results.len() ==> #[trigger] results_of(results)[i] == (
                results[i].0@,
                results[i].1,
            ),
{
}

/// Errors of a command name all that they are about, and count it.
pub proof fn law_errors_name_all(names: Vec<String>, failed: u64, total: u64)
    ensures
        (CliError::Stale { names }).words() == crate::text::join(
            crate::text::texts(names@),
            ", "@,
        ) + " out of date with their Pkl sources: run `pie generate`"@,
        (CliError::NotPie { failed, total }).words() == crate::number::decimal(failed as nat)
            + " of "@ + crate::number::decimal(total as nat) + " binaries are not PIE"@,
{
}

} // verus!
