//! The scripts of a build, and what they run with.

use crate::build::error::BuildError;
use crate::number::write_decimal;
use crate::path::join_path;
use crate::recipe::{Dependencies, Format, Source, Step};
use crate::runner::{shell, Ending};
use crate::template::{TemplateError, Vars};
use crate::text::{
    chars_of, finishes_with, join_texts, rest_after_last, same_text, string_of,
};
use crate::text_map::TextMap;
use vstd::prelude::*;
use vstd::string::*;

verus! {

/// A step is run unless it asks for an option that this build was not given.
pub open spec fn is_enabled(step: Step, with: Seq<Seq<char>>) -> bool {
    match step.when {
        Some(option) => with.contains(option@),
        None => true,
    }
}

/// Whether a step is run: it is not where it asks for an option that this build was
/// not given.
pub fn step_enabled(step: &Step, with: &[String]) -> (enabled: bool)
    ensures
        enabled == is_enabled(*step, crate::text::texts(with@)),
{
    match &step.when {
        None => true,
        Some(option) => {
            let ghost names = crate::text::texts(with@);
            let mut i: usize = 0;
            while i < with.len()
                invariant
                    i <= with@.len(),
                    step.when == Some(*option),
                    names == crate::text::texts(with@),
                    forall|j: int| 0 <= j < i ==> #[trigger] names[j] != option@,
                decreases with@.len() - i,
            {
                if same_text(with[i].as_str(), option.as_str()) {
                    assert(names[i as int] == option@);
                    return true;
                }
                i += 1;
            }
            false
        },
    }
}

/// What a script is run with.
#[derive(Debug)]
pub struct Invocation {
    pub name: String,
    pub script: String,
    pub cwd: String,
    pub env: TextMap,
}

/// The model of `Invocation`.
pub struct Invoked {
    pub name: Seq<char>,
    pub script: Seq<char>,
    pub cwd: Seq<char>,
    pub env: Map<Seq<char>, Seq<char>>,
}

impl View for Invocation {
    type V = Invoked;

    open spec fn view(&self) -> Invoked {
        Invoked {
            name: self.name@,
            script: self.script@,
            cwd: self.cwd@,
            env: self.env@,
        }
    }
}

/// An environment with further variables over it, each expanded. Where one cannot
/// be expanded, it is the error.
pub open spec fn layered(
    vars: Map<Seq<char>, Seq<char>>,
    env: Map<Seq<char>, Seq<char>>,
    list: Seq<(Seq<char>, Seq<char>)>,
) -> Result<Map<Seq<char>, Seq<char>>, Seq<char>>
    decreases list.len(),
{
    if list.len() == 0 {
        Ok(env)
    } else {
        match crate::template::expansion(vars, list[0].1) {
            Ok(value) => layered(vars, env.insert(list[0].0, value), list.drop_first()),
            Err(_) => Err(list[0].1),
        }
    }
}

/// Puts further variables over an environment, each expanded.
pub fn layer(env: TextMap, over: &TextMap, vars: &Vars) -> (result: Result<TextMap, TemplateError>)
    ensures
        match layered(vars@, env@, crate::text_map::listing(over@)) {
            Ok(map) => result matches Ok(env) && env@ == map,
            Err(text) => result matches Err(error) && error.arises(vars@, text),
        },
{
    let entries = over.entries();
    let ghost list = crate::text_map::pairs(entries@);
    let mut out = env;
    let mut i: usize = 0;
    assert(list.skip(0) =~= list);
    while i < entries.len()
        invariant
            i <= entries@.len(),
            list == crate::text_map::pairs(entries@),
            list == crate::text_map::listing(over@),
            layered(vars@, env@, list) == layered(vars@, out@, list.skip(i as int)),
        decreases entries@.len() - i,
    {
        let (key, value) = &entries[i];
        assert(list.skip(i as int)[0] == (key@, value@));
        assert(list.skip(i as int).drop_first() =~= list.skip(i + 1));
        match vars.expand(value.as_str()) {
            Ok(text) => {
                out.insert(key.clone(), text);
            },
            Err(error) => {
                return Err(error);
            },
        }
        i += 1;
    }
    Ok(out)
}

/// What `str::to_uppercase` makes of a text.
pub uninterp spec fn uppercase(text: Seq<char>) -> Seq<char>;

/// A text with its ASCII letters in upper case.
pub open spec fn ascii_uppercase(text: Seq<char>) -> Seq<char> {
    Seq::new(
        text.len(),
        |i: int|
            if 'a' <= text[i] && text[i] <= 'z' {
                (text[i] as u32 - 32) as char
            } else {
                text[i]
            },
    )
}

/// `str::to_uppercase` gives the upper case of a text. The contract names it, and
/// claims that on ASCII text it is the upper case of the ASCII letters.
#[verifier::external_body]
fn to_uppercase(text: &str) -> (upper: String)
    ensures
        upper@ == uppercase(text@),
        (forall|i: int| 0 <= i < text@.len() ==> #[trigger] text@[i] <= '\u{7f}') ==> upper@
            == ascii_uppercase(text@),
{
    text.to_uppercase()
}

/// Variables with their names in upper case.
pub open spec fn uppercased(list: Seq<(Seq<char>, Seq<char>)>) -> Seq<(Seq<char>, Seq<char>)> {
    list.map_values(|entry: (Seq<char>, Seq<char>)| (uppercase(entry.0), entry.1))
}

/// The variables, with their names in upper case.
fn uppercase_names(vars: &Vars) -> (named: Vec<(String, String)>)
    ensures
        crate::text_map::pairs(named@) == uppercased(crate::text_map::listing(vars@)),
{
    let entries = vars.iter();
    let ghost list = crate::text_map::pairs(entries@);
    let mut named: Vec<(String, String)> = Vec::new();
    let mut i: usize = 0;
    while i < entries.len()
        invariant
            i <= entries@.len(),
            list == crate::text_map::pairs(entries@),
            named@.len() == i,
            forall|j: int|
                0 <= j < i ==> (#[trigger] named@[j]).0@ == uppercase(list[j].0) && named@[j].1@
                    == list[j].1,
        decreases entries@.len() - i,
    {
        let (key, value) = &entries[i];
        assert(list[i as int] == (key@, value@));
        named.push((to_uppercase(key.as_str()), value.clone()));
        i += 1;
    }
    assert(crate::text_map::pairs(named@) =~= uppercased(list));
    named
}

/// The name under which a variable is exported whose name is `upper` in upper case.
pub open spec fn export_name(upper: Seq<char>) -> Seq<char> {
    "PIE_"@ + upper
}

/// An environment with variables exported into it, their names in upper case.
pub open spec fn exported(
    env: Map<Seq<char>, Seq<char>>,
    named: Seq<(Seq<char>, Seq<char>)>,
) -> Map<Seq<char>, Seq<char>>
    decreases named.len(),
{
    if named.len() == 0 {
        env
    } else {
        exported(env.insert(export_name(named[0].0), named[0].1), named.drop_first())
    }
}

/// Exports variables into an environment, their names in upper case.
pub fn export(env: TextMap, named: &Vec<(String, String)>) -> (out: TextMap)
    ensures
        out@ == exported(env@, crate::text_map::pairs(named@)),
{
    let ghost list = crate::text_map::pairs(named@);
    let mut out = env;
    let mut i: usize = 0;
    assert(list.skip(0) =~= list);
    while i < named.len()
        invariant
            i <= named@.len(),
            list == crate::text_map::pairs(named@),
            exported(env@, list) == exported(out@, list.skip(i as int)),
        decreases named@.len() - i,
    {
        let (upper, value) = &named[i];
        assert(list.skip(i as int)[0] == (upper@, value@));
        assert(list.skip(i as int).drop_first() =~= list.skip(i + 1));
        let mut name = "PIE_".to_owned();
        name.append(upper.as_str());
        out.insert(name, value.clone());
        i += 1;
    }
    out
}

/// The directory that a step is run in.
pub open spec fn step_cwd(
    step: Step,
    vars: Map<Seq<char>, Seq<char>>,
    work: Seq<char>,
) -> Result<Seq<char>, Seq<char>> {
    match step.cwd {
        None => Ok(work),
        Some(dir) => match crate::template::expansion(vars, dir@) {
            Ok(dir) => Ok(crate::path::joined(work, dir)),
            Err(_) => Err(dir@),
        },
    }
}

/// What a step is run with. Where one of its texts cannot be expanded, the first of
/// them is the error.
///
/// Recipes address paths through variables; exporting them keeps scripts that call
/// out to helper shell files working without re-templating. Optional features are
/// readable from the script itself, so a recipe can vary configure arguments
/// without needing a separate step per combination.
pub open spec fn invocation_of(
    step: Step,
    vars: Map<Seq<char>, Seq<char>>,
    env: Map<Seq<char>, Seq<char>>,
    work: Seq<char>,
    with: Seq<Seq<char>>,
) -> Result<Invoked, Seq<char>> {
    match crate::template::expansion(vars, step.name@) {
        Err(_) => Err(step.name@),
        Ok(name) => match crate::template::expansion(vars, step.run@) {
            Err(_) => Err(step.run@),
            Ok(script) => match step_cwd(step, vars, work) {
                Err(text) => Err(text),
                Ok(cwd) => match layered(vars, env, crate::text_map::listing(step.env@)) {
                    Err(text) => Err(text),
                    Ok(env) => Ok(
                        Invoked {
                            name,
                            script,
                            cwd,
                            env: exported(
                                env,
                                uppercased(crate::text_map::listing(vars)),
                            ).insert("PIE_WITH"@, crate::text::join(with, " "@)),
                        },
                    ),
                },
            },
        },
    }
}

/// `result` is what a script is run with.
pub open spec fn prepares(
    result: Result<Invocation, BuildError>,
    invoked: Result<Invoked, Seq<char>>,
    vars: Map<Seq<char>, Seq<char>>,
) -> bool {
    match invoked {
        Ok(invoked) => result matches Ok(invocation) && invocation@ == invoked,
        Err(text) => result matches Err(BuildError::Template { error }) && error.arises(vars, text),
    }
}

/// What a step is run with.
fn invoke(step: &Step, vars: &Vars, env: &TextMap, work: &str, with: &[String]) -> (result: Result<
    Invocation,
    BuildError,
>)
    ensures
        prepares(
            result,
            invocation_of(*step, vars@, env@, work@, crate::text::texts(with@)),
            vars@,
        ),
{
    let name = match vars.expand(step.name.as_str()) {
        Ok(name) => name,
        Err(error) => {
            return Err(BuildError::Template { error });
        },
    };
    let script = match vars.expand(step.run.as_str()) {
        Ok(script) => script,
        Err(error) => {
            return Err(BuildError::Template { error });
        },
    };
    let cwd = match &step.cwd {
        Some(dir) => match vars.expand(dir.as_str()) {
            Ok(dir) => join_path(work, dir.as_str()),
            Err(error) => {
                return Err(BuildError::Template { error });
            },
        },
        None => work.to_owned(),
    };
    let layers = match layer(env.clone(), &step.env, vars) {
        Ok(layers) => layers,
        Err(error) => {
            return Err(BuildError::Template { error });
        },
    };
    let mut env = export(layers, &uppercase_names(vars));
    env.insert("PIE_WITH".to_owned(), join_texts(with, " "));
    Ok(Invocation { name, script, cwd, env })
}

/// What a step of a recipe is run with, or nothing where it is not run.
pub fn run_step(
    step: &Step,
    vars: &Vars,
    env: &TextMap,
    work: &str,
    with: &[String],
) -> (result: Option<Result<Invocation, BuildError>>)
    ensures
        if is_enabled(*step, crate::text::texts(with@)) {
            result matches Some(invocation) && prepares(
                invocation,
                invocation_of(*step, vars@, env@, work@, crate::text::texts(with@)),
                vars@,
            )
        } else {
            result is None
        },
{
    if !step_enabled(step, with) {
        return None;
    }
    Some(invoke(step, vars, env, work, with))
}

impl Invocation {
    /// What came of the step, of which `ending` is how its script ended.
    pub fn outcome(&self, ending: Ending) -> (outcome: Result<(), BuildError>)
        ensures
            match crate::runner::failing(self.cwd@, ending) {
                None => outcome is Ok,
                Some(failing) => outcome matches Err(BuildError::StepFailed { name, failure })
                    && name@ == self.name@ && failure@ == failing,
            },
    {
        match shell(self.cwd.as_str(), ending) {
            Ok(()) => Ok(()),
            Err(failure) => Err(BuildError::StepFailed { name: self.name.clone(), failure }),
        }
    }
}

// -- the steps that every build has ------------------------------------------

/// A step that runs `run` under `name`, whatever the build was asked for.
pub open spec fn is_plain_step(step: Step, name: Seq<char>, run: Seq<char>) -> bool {
    &&& step.name@ == name
    &&& step.run@ == run
    &&& step.cwd is None
    &&& step.env@ == Map::<Seq<char>, Seq<char>>::empty()
    &&& step.when is None
}

/// A step that runs `run` under `name`, whatever the build was asked for.
fn plain_step(name: String, run: String) -> (step: Step)
    ensures
        is_plain_step(step, name@, run@),
{
    Step { name, run, cwd: None, env: TextMap::new(), when: None }
}

/// The package managers that a machine has.
#[derive(Debug, Clone, Copy, PartialEq, Eq, Structural)]
pub struct Managers {
    pub apt_get: bool,
    pub dnf: bool,
    pub yum: bool,
}

/// The script that installs the packages of a recipe, where there is a package
/// manager for them.
pub open spec fn dependency_script(
    deps: Dependencies,
    sudo: Seq<char>,
    managers: Managers,
) -> Option<Seq<char>> {
    if managers.apt_get && deps.apt@.len() > 0 {
        Some(
            sudo + "apt-get update\n"@ + sudo + "apt-get install -y --no-install-recommends "@
                + crate::text::join(crate::text::texts(deps.apt@), " "@),
        )
    } else if (managers.dnf || managers.yum) && deps.dnf@.len() > 0 {
        Some(
            sudo + (if managers.dnf {
                "dnf"@
            } else {
                "yum"@
            }) + " install -y "@ + crate::text::join(crate::text::texts(deps.dnf@), " "@),
        )
    } else {
        None
    }
}

/// What is noted where no packages are installed.
pub const NO_DEPENDENCIES: &'static str =
    "no matching package manager or no packages declared — skipping dependencies";

/// How commands are run as root.
pub open spec fn sudo_of(vars: Map<Seq<char>, Seq<char>>) -> Seq<char> {
    if vars.contains_key("sudo"@) {
        vars["sudo"@]
    } else {
        ""@
    }
}

/// The step that installs the packages of a recipe, where there is a package
/// manager for them.
pub fn install_dependencies(deps: &Dependencies, vars: &Vars, managers: Managers) -> (step: Option<
    Step,
>)
    ensures
        match dependency_script(*deps, sudo_of(vars@), managers) {
            Some(script) => step matches Some(step) && is_plain_step(
                step,
                "Install build dependencies"@,
                script,
            ),
            None => step is None,
        },
{
    let sudo = match vars.get("sudo") {
        Some(sudo) => sudo,
        None => "",
    };
    let mut script = sudo.to_owned();
    if managers.apt_get && deps.apt.len() > 0 {
        script.append("apt-get update\n");
        script.append(sudo);
        script.append("apt-get install -y --no-install-recommends ");
        script.append(join_texts(&deps.apt, " ").as_str());
    } else if (managers.dnf || managers.yum) && deps.dnf.len() > 0 {
        script.append(
            if managers.dnf {
                "dnf"
            } else {
                "yum"
            },
        );
        script.append(" install -y ");
        script.append(join_texts(&deps.dnf, " ").as_str());
    } else {
        return None;
    }
    Some(plain_step("Install build dependencies".to_owned(), script))
}

/// Where a source archive comes from and goes to.
#[derive(Debug)]
pub struct Fetch {
    pub url: String,
    pub filename: String,
    /// The directory that it is downloaded to.
    pub downloads: String,
    pub archive: String,
}

/// Where the source archive of a build comes from and goes to.
pub fn locate_source(source: &Source, vars: &Vars, work: &str) -> (result: Result<
    Fetch,
    BuildError,
>)
    ensures
        match crate::template::expansion(vars@, source.url@) {
            Err(_) => result matches Err(BuildError::Template { error }) && error.arises(
                vars@,
                source.url@,
            ),
            Ok(url) => {
                let filename = crate::text::after_last(url, '/');
                if filename.len() == 0 {
                    result matches Err(BuildError::NoFilename)
                } else {
                    result matches Ok(fetch) && fetch.url@ == url && fetch.filename@ == filename
                        && fetch.downloads@ == crate::path::joined(work@, "downloads"@)
                        && fetch.archive@ == crate::path::joined(
                        crate::path::joined(work@, "downloads"@),
                        filename,
                    )
                }
            },
        },
{
    let url = match vars.expand(source.url.as_str()) {
        Ok(url) => url,
        Err(error) => {
            return Err(BuildError::Template { error });
        },
    };
    let chars = chars_of(url.as_str());
    let rest = rest_after_last(&chars, '/');
    if rest.len() == 0 {
        return Err(BuildError::NoFilename);
    }
    let filename = string_of(rest);
    let downloads = join_path(work, "downloads");
    let archive = join_path(downloads.as_str(), filename.as_str());
    Ok(Fetch { url, filename, downloads, archive })
}

/// What `format!` writes for a text with `{:?}`: the text in double quotes, with
/// escapes.
pub uninterp spec fn quoted(text: Seq<char>) -> Seq<char>;

/// A text of printable ASCII characters without quotes and backslashes, which needs
/// no escapes in quotes.
pub open spec fn is_unescaped(text: Seq<char>) -> bool {
    forall|i: int|
        0 <= i < text.len() ==> ' ' <= #[trigger] text[i] <= '~' && text[i] != '"' && text[i]
            != '\'' && text[i] != '\\'
}

/// A text in double quotes.
pub open spec fn in_double_quotes(text: Seq<char>) -> Seq<char> {
    "\""@ + text + "\""@
}

/// Formats a text with `{:?}`, which puts it in double quotes and escapes what
/// does not stand for itself. The contract names the result, and claims that
/// printable ASCII other than quotes and backslashes stands for itself.
#[verifier::external_body]
fn quote(text: &str) -> (out: String)
    ensures
        out@ == quoted(text@),
        is_unescaped(text@) ==> out@ == in_double_quotes(text@),
{
    format!("{text:?}")
}

/// The script that unpacks a source archive, of which `archive` and `src` are the
/// paths in quotes.
pub open spec fn unpack_words(
    filename: Seq<char>,
    archive: Seq<char>,
    src: Seq<char>,
    strip: u32,
) -> Seq<char> {
    if ".zip"@.is_suffix_of(filename) {
        "unzip -q "@ + archive + " -d "@ + src
    } else {
        "tar -xf "@ + archive + " -C "@ + src + " --strip-components="@ + crate::number::decimal(
            strip as nat,
        )
    }
}

/// The script that unpacks a source archive, of which `archive` and `src` are the
/// paths in quotes.
pub fn write_unpack_script(filename: &str, archive: &str, src: &str, strip: u32) -> (script: String)
    ensures
        script@ == unpack_words(filename@, archive@, src@, strip),
{
    let chars = chars_of(filename);
    let zip = chars_of(".zip");
    if finishes_with(&chars, &zip) {
        let mut script = "unzip -q ".to_owned();
        script.append(archive);
        script.append(" -d ");
        script.append(src);
        return script;
    }
    let mut script = "tar -xf ".to_owned();
    script.append(archive);
    script.append(" -C ");
    script.append(src);
    script.append(" --strip-components=");
    script.append(write_decimal(strip as u64).as_str());
    script
}

/// The script that unpacks a source archive.
pub open spec fn unpack_script(
    filename: Seq<char>,
    archive: Seq<char>,
    src: Seq<char>,
    strip: u32,
) -> Seq<char> {
    unpack_words(filename, quoted(archive), quoted(src), strip)
}

/// The step that unpacks a source archive. Extraction streams, so it gets its own
/// step rather than hiding inside the download: for CPython or Node this is tens of
/// thousands of files.
pub fn unpack_source(source: &Source, fetch: &Fetch, src: &str) -> (step: Step)
    ensures
        is_plain_step(
            step,
            "Unpack "@ + fetch.filename@,
            unpack_script(fetch.filename@, fetch.archive@, src@, source.strip_components),
        ),
        is_unescaped(fetch.archive@) && is_unescaped(src@) ==> is_plain_step(
            step,
            "Unpack "@ + fetch.filename@,
            unpack_words(
                fetch.filename@,
                in_double_quotes(fetch.archive@),
                in_double_quotes(src@),
                source.strip_components,
            ),
        ),
{
    let mut name = "Unpack ".to_owned();
    name.append(fetch.filename.as_str());
    let archive = quote(fetch.archive.as_str());
    let script = write_unpack_script(
        fetch.filename.as_str(),
        archive.as_str(),
        quote(src).as_str(),
        source.strip_components,
    );
    plain_step(name, script)
}

/// A text in single quotes.
pub open spec fn in_quotes(text: Seq<char>) -> Seq<char> {
    "'"@ + text + "'"@
}

/// Writes a text in single quotes.
fn append_quoted(script: &mut String, text: &str)
    ensures
        final(script)@ == old(script)@ + in_quotes(text@),
{
    let ghost before = script@;
    script.append("'");
    script.append(text);
    script.append("'");
    assert(script@ =~= before + in_quotes(text@));
}

/// The name of an artifact.
pub open spec fn artifact_name(package: Seq<char>, format: Format) -> Seq<char> {
    package + "."@ + format.suffix()
}

/// The name of an artifact.
pub fn write_artifact_name(package: &str, format: Format) -> (name: String)
    ensures
        name@ == artifact_name(package@, format),
{
    let mut name = package.to_owned();
    name.append(".");
    name.append(format.extension());
    name
}

/// The script that creates an artifact.
pub open spec fn archive_script(
    format: Format,
    stage: Seq<char>,
    archive: Seq<char>,
    inner_dir: Seq<char>,
) -> Seq<char> {
    match format {
        Format::TarXz => "tar -C "@ + in_quotes(stage) + " -cJf "@ + in_quotes(archive) + " "@
            + in_quotes(inner_dir),
        Format::TarGz => "tar -C "@ + in_quotes(stage) + " -czf "@ + in_quotes(archive) + " "@
            + in_quotes(inner_dir),
        Format::Zip => "cd "@ + in_quotes(stage) + " && rm -f "@ + in_quotes(archive)
            + " && zip -qr "@ + in_quotes(archive) + " "@ + in_quotes(inner_dir),
    }
}

/// The step that creates an artifact, and the artifact.
pub fn create_archive(
    format: Format,
    package: &str,
    inner_dir: &str,
    stage: &str,
    dist: &str,
) -> (created: (Step, String))
    ensures
        created.1@ == crate::path::joined(dist@, artifact_name(package@, format)),
        is_plain_step(
            created.0,
            "Create "@ + artifact_name(package@, format),
            archive_script(format, stage@, created.1@, inner_dir@),
        ),
{
    let artifact = write_artifact_name(package, format);
    let archive = join_path(dist, artifact.as_str());
    let mut script: String;
    match format {
        Format::TarXz => {
            script = "tar -C ".to_owned();
            append_quoted(&mut script, stage);
            script.append(" -cJf ");
        },
        Format::TarGz => {
            script = "tar -C ".to_owned();
            append_quoted(&mut script, stage);
            script.append(" -czf ");
        },
        Format::Zip => {
            script = "cd ".to_owned();
            append_quoted(&mut script, stage);
            script.append(" && rm -f ");
            append_quoted(&mut script, archive.as_str());
            script.append(" && zip -qr ");
        },
    }
    append_quoted(&mut script, archive.as_str());
    script.append(" ");
    append_quoted(&mut script, inner_dir);
    let mut name = "Create ".to_owned();
    name.append(artifact.as_str());
    (plain_step(name, script), archive)
}

/// The file beside an artifact that holds its digest, and what it holds.
pub fn digest_file(format: Format, package: &str, dist: &str, digest: &str) -> (file: (
    String,
    String,
))
    ensures
        file.0@ == crate::path::joined(dist@, artifact_name(package@, format) + ".sha256"@),
        file.1@ == digest@ + "  "@ + artifact_name(package@, format) + "\n"@,
{
    let artifact = write_artifact_name(package, format);
    let mut name = artifact.clone();
    name.append(".sha256");
    let mut text = digest.to_owned();
    text.append("  ");
    text.append(artifact.as_str());
    text.append("\n");
    (join_path(dist, name.as_str()), text)
}

/// Where an artifact is unpacked to be verified, and where its tree then lies.
/// Unpacking somewhere unrelated to the build tree is what actually proves the
/// artifact is relocatable rather than pinned to its staging path.
pub fn extraction_paths(work: &str, inner_dir: &str) -> (paths: (String, String))
    ensures
        paths.0@ == crate::path::joined(work@, "verify"@),
        paths.1@ == crate::path::joined(crate::path::joined(work@, "verify"@), inner_dir@),
{
    let target = join_path(work, "verify");
    let extracted = join_path(target.as_str(), inner_dir);
    (target, extracted)
}

/// The step that unpacks an artifact.
pub fn extract_for_verification(format: Format, archive: &str, target: &str) -> (step: Step)
    ensures
        is_plain_step(
            step,
            "Unpack artifact to a fresh prefix"@,
            extract_script(format, archive@, target@),
        ),
{
    let mut script: String;
    match format {
        Format::Zip => {
            script = "unzip -q ".to_owned();
            append_quoted(&mut script, archive);
            script.append(" -d ");
            append_quoted(&mut script, target);
        },
        _ => {
            script = "tar -C ".to_owned();
            append_quoted(&mut script, target);
            script.append(" -xf ");
            append_quoted(&mut script, archive);
        },
    }
    plain_step("Unpack artifact to a fresh prefix".to_owned(), script)
}

// -- running them ------------------------------------------------------------

/// What a script is run with that no step of the recipe stands for.
pub open spec fn plain_invocation(
    name: Seq<char>,
    run: Seq<char>,
    vars: Map<Seq<char>, Seq<char>>,
    env: Map<Seq<char>, Seq<char>>,
    work: Seq<char>,
) -> Result<Invoked, Seq<char>> {
    match crate::template::expansion(vars, name) {
        Err(_) => Err(name),
        Ok(name) => match crate::template::expansion(vars, run) {
            Err(_) => Err(run),
            Ok(script) => Ok(
                Invoked {
                    name,
                    script,
                    cwd: work,
                    env: exported(env, uppercased(crate::text_map::listing(vars))).insert(
                        "PIE_WITH"@,
                        ""@,
                    ),
                },
            ),
        },
    }
}

/// What a step is run with that is always run.
fn run_plain_step(step: &Step, vars: &Vars, env: &TextMap, work: &str) -> (result: Result<
    Invocation,
    BuildError,
>)
    requires
        is_plain_step(*step, step.name@, step.run@),
    ensures
        prepares(
            result,
            plain_invocation(step.name@, step.run@, vars@, env@, work@),
            vars@,
        ),
{
    let with: [String; 0] = [];
    proof {
        reveal_strlit("");
        assert(crate::text::join(crate::text::texts(with@), " "@) =~= ""@);
        crate::text_map::lemma_listing_of_nothing();
        assert(layered(vars@, env@, crate::text_map::listing(step.env@)) == Ok::<
            Map<Seq<char>, Seq<char>>,
            Seq<char>,
        >(env@));
    }
    invoke(step, vars, env, work, &with)
}

/// What the packages of a recipe are installed with, or nothing where there is no
/// package manager for them.
pub fn prepare_dependencies(
    deps: &Dependencies,
    vars: &Vars,
    env: &TextMap,
    work: &str,
    managers: Managers,
) -> (result: Option<Result<Invocation, BuildError>>)
    ensures
        match dependency_script(*deps, sudo_of(vars@), managers) {
            None => result is None,
            Some(script) => result matches Some(invocation) && prepares(
                invocation,
                plain_invocation(
                    "Install build dependencies"@,
                    script,
                    vars@,
                    env@,
                    work@,
                ),
                vars@,
            ),
        },
{
    match install_dependencies(deps, vars, managers) {
        Some(step) => Some(run_plain_step(&step, vars, env, work)),
        None => None,
    }
}

/// What a source archive is unpacked with. The environment of the recipe has no
/// part in it.
pub fn prepare_unpacking(
    source: &Source,
    fetch: &Fetch,
    src: &str,
    vars: &Vars,
    work: &str,
) -> (result: Result<Invocation, BuildError>)
    ensures
        prepares(
            result,
            plain_invocation(
                "Unpack "@ + fetch.filename@,
                unpack_script(fetch.filename@, fetch.archive@, src@, source.strip_components),
                vars@,
                Map::<Seq<char>, Seq<char>>::empty(),
                work@,
            ),
            vars@,
        ),
{
    let step = unpack_source(source, fetch, src);
    run_plain_step(&step, vars, &TextMap::new(), work)
}

/// What an artifact is created with, and the artifact. Neither the variables nor the
/// environment of the recipe have a part in it.
pub fn prepare_archive(
    format: Format,
    package: &str,
    inner_dir: &str,
    stage: &str,
    dist: &str,
) -> (prepared: (Result<Invocation, BuildError>, String))
    ensures
        prepared.1@ == crate::path::joined(dist@, artifact_name(package@, format)),
        prepares(
            prepared.0,
            plain_invocation(
                "Create "@ + artifact_name(package@, format),
                archive_script(format, stage@, prepared.1@, inner_dir@),
                Map::<Seq<char>, Seq<char>>::empty(),
                Map::<Seq<char>, Seq<char>>::empty(),
                dist@,
            ),
            Map::<Seq<char>, Seq<char>>::empty(),
        ),
{
    let (step, archive) = create_archive(format, package, inner_dir, stage, dist);
    (run_plain_step(&step, &Vars::new(), &TextMap::new(), dist), archive)
}

/// The script that unpacks an artifact.
pub open spec fn extract_script(format: Format, archive: Seq<char>, target: Seq<char>) -> Seq<
    char,
> {
    match format {
        Format::Zip => "unzip -q "@ + in_quotes(archive) + " -d "@ + in_quotes(target),
        _ => "tar -C "@ + in_quotes(target) + " -xf "@ + in_quotes(archive),
    }
}

/// What an artifact is unpacked with. Neither the variables nor the environment of
/// the recipe have a part in it.
pub fn prepare_extraction(format: Format, archive: &str, target: &str, work: &str) -> (result:
    Result<Invocation, BuildError>)
    ensures
        prepares(
            result,
            plain_invocation(
                "Unpack artifact to a fresh prefix"@,
                extract_script(format, archive@, target@),
                Map::<Seq<char>, Seq<char>>::empty(),
                Map::<Seq<char>, Seq<char>>::empty(),
                work@,
            ),
            Map::<Seq<char>, Seq<char>>::empty(),
        ),
{
    let step = extract_for_verification(format, archive, target);
    run_plain_step(&step, &Vars::new(), &TextMap::new(), work)
}

// -- laws --------------------------------------------------------------------

/// What a layer leaves alone it leaves alone.
proof fn lemma_layered_keeps(
    vars: Map<Seq<char>, Seq<char>>,
    env: Map<Seq<char>, Seq<char>>,
    list: Seq<(Seq<char>, Seq<char>)>,
    key: Seq<char>,
)
    requires
        layered(vars, env, list) is Ok,
        forall|i: int| 0 <= i < list.len() ==> (#[trigger] list[i]).0 != key,
    ensures
        layered(vars, env, list)->Ok_0.contains_key(key) == env.contains_key(key),
        env.contains_key(key) ==> layered(vars, env, list)->Ok_0[key] == env[key],
    decreases list.len(),
{
    if list.len() > 0 {
        let value = crate::template::expansion(vars, list[0].1)->Ok_0;
        let rest = list.drop_first();
        assert forall|i: int| 0 <= i < rest.len() implies (#[trigger] rest[i]).0 != key by {
            assert(rest[i] == list[i + 1]);
        }
        lemma_layered_keeps(vars, env.insert(list[0].0, value), rest, key);
    }
}

/// What a layer sets it sets to the expansion of its text.
proof fn lemma_layered_sets(
    vars: Map<Seq<char>, Seq<char>>,
    env: Map<Seq<char>, Seq<char>>,
    list: Seq<(Seq<char>, Seq<char>)>,
    at: int,
)
    requires
        layered(vars, env, list) is Ok,
        0 <= at < list.len(),
        forall|i: int| 0 <= i < list.len() && i != at ==> (#[trigger] list[i]).0 != list[at].0,
    ensures
        layered(vars, env, list)->Ok_0.contains_key(list[at].0),
        crate::template::expansion(vars, list[at].1) == Ok::<Seq<char>, crate::template::Flaw>(
            layered(vars, env, list)->Ok_0[list[at].0],
        ),
    decreases list.len(),
{
    let value = crate::template::expansion(vars, list[0].1)->Ok_0;
    let rest = list.drop_first();
    let next = env.insert(list[0].0, value);
    assert forall|i: int| 0 <= i < rest.len() && i != at - 1 implies (#[trigger] rest[i]).0
        != list[at].0 by {
        assert(rest[i] == list[i + 1]);
    }
    if at == 0 {
        lemma_layered_keeps(vars, next, rest, list[0].0);
    } else {
        assert(rest[at - 1] == list[at]);
        lemma_layered_sets(vars, next, rest, at - 1);
    }
}

/// What is not exported over is left alone.
proof fn lemma_exported_keeps(
    env: Map<Seq<char>, Seq<char>>,
    list: Seq<(Seq<char>, Seq<char>)>,
    name: Seq<char>,
)
    requires
        forall|i: int| 0 <= i < list.len() ==> export_name((#[trigger] list[i]).0) != name,
    ensures
        exported(env, list).contains_key(name) == env.contains_key(name),
        env.contains_key(name) ==> exported(env, list)[name] == env[name],
    decreases list.len(),
{
    if list.len() > 0 {
        let rest = list.drop_first();
        assert forall|i: int| 0 <= i < rest.len() implies export_name((#[trigger] rest[i]).0)
            != name by {
            assert(rest[i] == list[i + 1]);
        }
        lemma_exported_keeps(env.insert(export_name(list[0].0), list[0].1), rest, name);
    }
}

/// What is exported has its value, unless another is exported under the same name.
proof fn lemma_exported_sets(
    env: Map<Seq<char>, Seq<char>>,
    list: Seq<(Seq<char>, Seq<char>)>,
    at: int,
)
    requires
        0 <= at < list.len(),
        forall|i: int|
            0 <= i < list.len() && i != at ==> export_name((#[trigger] list[i]).0) != export_name(
                list[at].0,
            ),
    ensures
        exported(env, list).contains_key(export_name(list[at].0)),
        exported(env, list)[export_name(list[at].0)] == list[at].1,
    decreases list.len(),
{
    let rest = list.drop_first();
    let next = env.insert(export_name(list[0].0), list[0].1);
    assert forall|i: int| 0 <= i < rest.len() && i != at - 1 implies export_name(
        (#[trigger] rest[i]).0,
    ) != export_name(list[at].0) by {
        assert(rest[i] == list[i + 1]);
    }
    if at == 0 {
        lemma_exported_keeps(next, rest, export_name(list[0].0));
    } else {
        assert(rest[at - 1] == list[at]);
        lemma_exported_sets(next, rest, at - 1);
    }
}

/// A step's own environment is layered over that of the recipe: what the step sets
/// has its value, and everything else is as the recipe has it.
pub proof fn law_step_environment_wins(
    step: Step,
    vars: Map<Seq<char>, Seq<char>>,
    env: Map<Seq<char>, Seq<char>>,
    work: Seq<char>,
    with: Seq<Seq<char>>,
    invoked: Invoked,
    key: Seq<char>,
)
    requires
        crate::text_map::is_listed(vars),
        crate::text_map::is_listed(step.env@),
        invocation_of(step, vars, env, work, with) == Ok::<Invoked, Seq<char>>(invoked),
        key != "PIE_WITH"@,
        forall|name: Seq<char>| #[trigger]
            vars.contains_key(name) ==> export_name(uppercase(name)) != key,
    ensures
        step.env@.contains_key(key) ==> invoked.env.contains_key(key)
            && crate::template::expansion(vars, step.env@[key]) == Ok::<
            Seq<char>,
            crate::template::Flaw,
        >(invoked.env[key]),
        !step.env@.contains_key(key) ==> invoked.env.contains_key(key) == env.contains_key(key),
        !step.env@.contains_key(key) && env.contains_key(key) ==> invoked.env[key] == env[key],
{
    let over = crate::text_map::listing(step.env@);
    let list = crate::text_map::listing(vars);
    let named = uppercased(list);
    let layers = layered(vars, env, over)->Ok_0;
    crate::text_map::lemma_listed(step.env@, key);
    assert forall|i: int| 0 <= i < named.len() implies export_name((#[trigger] named[i]).0)
        != key by {
        crate::text_map::lemma_listed(vars, list[i].0);
        assert(crate::text_map::entry_at(list, list[i].0, i));
        assert(vars.contains_key(list[i].0));
    }
    lemma_exported_keeps(layers, named, key);
    if step.env@.contains_key(key) {
        let at = choose|at: int| crate::text_map::entry_at(over, key, at);
        assert(crate::text_map::entry_at(over, key, at));
        assert forall|i: int| 0 <= i < over.len() && i != at implies (#[trigger] over[i]).0
            != over[at].0 by {
            if over[i].0 == key {
                assert(crate::text_map::entry_at(over, key, i));
                crate::text_map::lemma_listed_once(step.env@, key, i, at);
            }
        }
        lemma_layered_sets(vars, env, over, at);
    } else {
        assert forall|i: int| 0 <= i < over.len() implies (#[trigger] over[i]).0 != key by {
            if over[i].0 == key {
                assert(crate::text_map::entry_at(over, key, i));
            }
        }
        lemma_layered_keeps(vars, env, over, key);
    }
}

/// A script can read every variable, under the name that it is exported under, and
/// the features that the build was asked for.
pub proof fn law_variables_are_exported(
    step: Step,
    vars: Map<Seq<char>, Seq<char>>,
    env: Map<Seq<char>, Seq<char>>,
    work: Seq<char>,
    with: Seq<Seq<char>>,
    invoked: Invoked,
    key: Seq<char>,
)
    requires
        crate::text_map::is_listed(vars),
        invocation_of(step, vars, env, work, with) == Ok::<Invoked, Seq<char>>(invoked),
        vars.contains_key(key),
        export_name(uppercase(key)) != "PIE_WITH"@,
        forall|name: Seq<char>| #[trigger]
            vars.contains_key(name) && uppercase(name) == uppercase(key) ==> name == key,
    ensures
        invoked.env.contains_key(export_name(uppercase(key))),
        invoked.env[export_name(uppercase(key))] == vars[key],
        invoked.env.contains_key("PIE_WITH"@),
        invoked.env["PIE_WITH"@] == crate::text::join(with, " "@),
{
    let list = crate::text_map::listing(vars);
    let named = uppercased(list);
    let layers = layered(vars, env, crate::text_map::listing(step.env@))->Ok_0;
    crate::text_map::lemma_listed(vars, key);
    let at = choose|at: int| crate::text_map::entry_at(list, key, at);
    assert(crate::text_map::entry_at(list, key, at));
    assert forall|i: int| 0 <= i < named.len() && i != at implies export_name(
        (#[trigger] named[i]).0,
    ) != export_name(named[at].0) by {
        crate::text_map::lemma_listed(vars, list[i].0);
        assert(crate::text_map::entry_at(list, list[i].0, i));
        assert(vars.contains_key(list[i].0));
        if list[i].0 == key {
            crate::text_map::lemma_listed_once(vars, key, i, at);
        }
        if export_name(named[i].0) == export_name(named[at].0) {
            lemma_export_name_injective(named[i].0, named[at].0);
        }
    }
    lemma_exported_sets(layers, named, at);
}

/// Two names that are exported under one name are one name.
proof fn lemma_export_name_injective(a: Seq<char>, b: Seq<char>)
    requires
        export_name(a) == export_name(b),
    ensures
        a == b,
{
    let skipped = "PIE_"@.len() as int;
    assert(export_name(a).skip(skipped) =~= a);
    assert(export_name(b).skip(skipped) =~= b);
}

/// A step is run unless it asks for an option that the build was not given.
pub proof fn law_steps_are_gated_by_their_option(step: Step, with: Seq<Seq<char>>)
    ensures
        step.when is None ==> is_enabled(step, with),
        step.when matches Some(option) ==> (is_enabled(step, with) <==> exists|i: int|
            0 <= i < with.len() && #[trigger] with[i] == option@),
{
}

/// What a step is run as: its name and script are the expansions of what it says.
pub proof fn law_steps_run_what_they_say(
    step: Step,
    vars: Map<Seq<char>, Seq<char>>,
    env: Map<Seq<char>, Seq<char>>,
    work: Seq<char>,
    with: Seq<Seq<char>>,
    invoked: Invoked,
)
    requires
        invocation_of(step, vars, env, work, with) == Ok::<Invoked, Seq<char>>(invoked),
    ensures
        crate::template::expansion(vars, step.name@) == Ok::<Seq<char>, crate::template::Flaw>(
            invoked.name,
        ),
        crate::template::expansion(vars, step.run@) == Ok::<Seq<char>, crate::template::Flaw>(
            invoked.script,
        ),
{
}

/// A step is run in the work directory, or in the one that it names: the work
/// directory joined with the expansion of that text, which is the expansion itself
/// where it is absolute.
pub proof fn law_steps_run_where_they_say(
    step: Step,
    vars: Map<Seq<char>, Seq<char>>,
    env: Map<Seq<char>, Seq<char>>,
    work: Seq<char>,
    with: Seq<Seq<char>>,
    invoked: Invoked,
)
    requires
        invocation_of(step, vars, env, work, with) == Ok::<Invoked, Seq<char>>(invoked),
    ensures
        step.cwd is None ==> invoked.cwd == work,
        step.cwd matches Some(dir) ==> crate::template::expansion(vars, dir@) is Ok && ({
            let path = crate::template::expansion(vars, dir@)->Ok_0;
            &&& path.len() > 0 && path[0] == '/' ==> invoked.cwd == path
            &&& (path.len() == 0 || path[0] != '/') && work.len() > 0 && work.last() != '/'
                ==> invoked.cwd == work + seq!['/'] + path
            &&& (path.len() == 0 || path[0] != '/') && (work.len() == 0 || work.last() == '/')
                ==> invoked.cwd == work + path
        }),
{
    if let Some(dir) = step.cwd {
        let path = crate::template::expansion(vars, dir@)->Ok_0;
        assert(work.push('/') + path =~= work + seq!['/'] + path);
    }
}

/// A step whose directory is one placeholder of a variable set to an absolute path is
/// run in that path; and one whose directory names a variable that is not set is
/// refused.
pub proof fn law_step_directories_are_expanded(
    step: Step,
    vars: Map<Seq<char>, Seq<char>>,
    env: Map<Seq<char>, Seq<char>>,
    work: Seq<char>,
    with: Seq<Seq<char>>,
    dir: String,
    name: Seq<char>,
)
    requires
        step.cwd == Some(dir),
        dir@ == seq!['{', '{'] + name + seq!['}', '}'],
        forall|i: int| 0 <= i < name.len() ==> #[trigger] name[i] != '}',
    ensures
        ({
            let key = crate::text::trimmed(name);
            &&& !vars.contains_key(key) ==> invocation_of(step, vars, env, work, with) is Err
            &&& vars.contains_key(key) && vars[key].len() > 0 && vars[key][0] == '/'
                && invocation_of(step, vars, env, work, with) is Ok ==> invocation_of(
                step,
                vars,
                env,
                work,
                with,
            )->Ok_0.cwd == vars[key]
        }),
{
    assert forall|i: int| !crate::text::occurs_at(name, seq!['}', '}'], i) by {
        if crate::text::occurs_at(name, seq!['}', '}'], i) {
            assert(name.subrange(i, i + 2)[0] == '}');
            assert(name[i] == '}');
        }
    }
    crate::template::law_lone_placeholder_is_its_value(vars, name);
}

/// A step is refused only for a text of it that has no expansion, and always for such
/// a text: its name, its script, its directory or a value of its environment.
pub proof fn law_steps_are_refused_for_their_templates(
    step: Step,
    vars: Map<Seq<char>, Seq<char>>,
    env: Map<Seq<char>, Seq<char>>,
    work: Seq<char>,
    with: Seq<Seq<char>>,
)
    requires
        crate::text_map::is_listed(step.env@),
    ensures
        invocation_of(step, vars, env, work, with) is Ok <==> {
            &&& crate::template::expansion(vars, step.name@) is Ok
            &&& crate::template::expansion(vars, step.run@) is Ok
            &&& step.cwd matches Some(dir) ==> crate::template::expansion(vars, dir@) is Ok
            &&& forall|key: Seq<char>| #[trigger]
                step.env@.contains_key(key) ==> crate::template::expansion(vars, step.env@[key])
                    is Ok
        },
        invocation_of(step, vars, env, work, with) matches Err(text)
            ==> crate::template::expansion(vars, text) is Err,
{
    let list = crate::text_map::listing(step.env@);
    lemma_layered_succeeds(vars, env, list);
    if forall|i: int|
        0 <= i < list.len() ==> crate::template::expansion(vars, (#[trigger] list[i]).1) is Ok {
        assert forall|key: Seq<char>| #[trigger]
            step.env@.contains_key(key) implies crate::template::expansion(vars, step.env@[key])
            is Ok by {
            crate::text_map::lemma_listed(step.env@, key);
            let at = choose|at: int| crate::text_map::entry_at(list, key, at);
            assert(crate::text_map::entry_at(list, key, at));
            assert(crate::template::expansion(vars, list[at].1) is Ok);
        }
    } else {
        let i = choose|i: int|
            0 <= i < list.len() && crate::template::expansion(vars, (#[trigger] list[i]).1) is Err;
        let key = list[i].0;
        crate::text_map::lemma_listed(step.env@, key);
        assert(crate::text_map::entry_at(list, key, i));
        assert(step.env@.contains_key(key));
        assert(step.env@[key] == list[i].1);
    }
}

proof fn lemma_layered_succeeds(
    vars: Map<Seq<char>, Seq<char>>,
    env: Map<Seq<char>, Seq<char>>,
    list: Seq<(Seq<char>, Seq<char>)>,
)
    ensures
        layered(vars, env, list) is Ok <==> forall|i: int|
            0 <= i < list.len() ==> crate::template::expansion(vars, (#[trigger] list[i]).1) is Ok,
        layered(vars, env, list) matches Err(text) ==> crate::template::expansion(vars, text) is Err,
    decreases list.len(),
{
    if list.len() > 0 {
        if let Ok(value) = crate::template::expansion(vars, list[0].1) {
            let rest = list.drop_first();
            lemma_layered_succeeds(vars, env.insert(list[0].0, value), rest);
            if layered(vars, env, list) is Ok {
                assert forall|i: int| 0 <= i < list.len() implies crate::template::expansion(
                    vars,
                    (#[trigger] list[i]).1,
                ) is Ok by {
                    if i > 0 {
                        assert(rest[i - 1] == list[i]);
                    }
                }
            } else {
                let i = choose|i: int|
                    0 <= i < rest.len() && crate::template::expansion(vars, (#[trigger] rest[i]).1)
                        is Err;
                assert(list[i + 1] == rest[i]);
            }
        } else {
            assert(crate::template::expansion(vars, list[0].1) is Err);
        }
    }
}

/// Dependencies are installed with the first package manager that the host has and
/// that the recipe names packages for: apt-get, then dnf, then yum. All packages are
/// named, in their order.
pub proof fn law_dependencies_use_the_first_manager(
    deps: Dependencies,
    sudo: Seq<char>,
    managers: Managers,
)
    ensures
        managers.apt_get && deps.apt@.len() > 0 ==> dependency_script(deps, sudo, managers) == Some(
            sudo + "apt-get update\n"@ + sudo + "apt-get install -y --no-install-recommends "@
                + crate::text::join(crate::text::texts(deps.apt@), seq![' ']),
        ),
        !(managers.apt_get && deps.apt@.len() > 0) && managers.dnf && deps.dnf@.len() > 0
            ==> dependency_script(deps, sudo, managers) == Some(
            sudo + "dnf"@ + " install -y "@ + crate::text::join(
                crate::text::texts(deps.dnf@),
                seq![' '],
            ),
        ),
        !(managers.apt_get && deps.apt@.len() > 0) && !managers.dnf && managers.yum
            && deps.dnf@.len() > 0 ==> dependency_script(deps, sudo, managers) == Some(
            sudo + "yum"@ + " install -y "@ + crate::text::join(
                crate::text::texts(deps.dnf@),
                seq![' '],
            ),
        ),
        dependency_script(deps, sudo, managers) is None <==> !(managers.apt_get && deps.apt@.len()
            > 0) && !((managers.dnf || managers.yum) && deps.dnf@.len() > 0),
{
    reveal_strlit(" ");
    assert(" "@ =~= seq![' ']);
}

/// Commands are run as the variable `sudo` says, or as they are where it is not set.
pub proof fn law_sudo_is_a_variable(vars: Map<Seq<char>, Seq<char>>)
    ensures
        vars.contains_key("sudo"@) ==> sudo_of(vars) == vars["sudo"@],
        !vars.contains_key("sudo"@) ==> sudo_of(vars).len() == 0,
{
    reveal_strlit("");
}

/// Archives that are named `.zip` are unzipped; all others are untarred, without as
/// many leading components as the source says.
pub proof fn law_archives_are_unpacked_by_name(
    name: Seq<char>,
    archive: Seq<char>,
    src: Seq<char>,
    strip: u32,
)
    ensures
        unpack_words(name + ".zip"@, archive, src, strip) == "unzip -q "@ + archive + " -d "@ + src,
        !".zip"@.is_suffix_of(name) ==> unpack_words(name, archive, src, strip) == "tar -xf "@
            + archive + " -C "@ + src + " --strip-components="@ + crate::number::decimal(
            strip as nat,
        ),
{
    let zipped = name + ".zip"@;
    assert(zipped.subrange(name.len() as int, zipped.len() as int) =~= ".zip"@);
}

/// An artifact is made by the program for its format, of the directory in the stage,
/// and unpacked by the same program.
pub proof fn law_artifacts_are_made_for_their_format(
    stage: Seq<char>,
    archive: Seq<char>,
    inner_dir: Seq<char>,
    target: Seq<char>,
)
    ensures
        ({
            let staged = seq!['\''] + stage + seq!['\''];
            let made = seq!['\''] + archive + seq!['\''];
            let inner = seq!['\''] + inner_dir + seq!['\''];
            let into = seq!['\''] + target + seq!['\''];
            &&& archive_script(Format::TarXz, stage, archive, inner_dir) == "tar -C "@ + staged
                + " -cJf "@ + made + " "@ + inner
            &&& archive_script(Format::TarGz, stage, archive, inner_dir) == "tar -C "@ + staged
                + " -czf "@ + made + " "@ + inner
            &&& archive_script(Format::Zip, stage, archive, inner_dir) == "cd "@ + staged
                + " && rm -f "@ + made + " && zip -qr "@ + made + " "@ + inner
            &&& extract_script(Format::TarXz, archive, target) == "tar -C "@ + into + " -xf "@
                + made
            &&& extract_script(Format::TarGz, archive, target) == "tar -C "@ + into + " -xf "@
                + made
            &&& extract_script(Format::Zip, archive, target) == "unzip -q "@ + made + " -d "@ + into
        }),
{
    reveal_strlit("'");
    assert("'"@ =~= seq!['\'']);
}

/// An artifact is named after its package and its format.
pub proof fn law_artifacts_are_named_by_format(package: Seq<char>)
    ensures
        artifact_name(package, Format::TarXz) == package + ".tar.xz"@,
        artifact_name(package, Format::TarGz) == package + ".tar.gz"@,
        artifact_name(package, Format::Zip) == package + ".zip"@,
{
    reveal_strlit(".");
    reveal_strlit("tar.xz");
    reveal_strlit("tar.gz");
    reveal_strlit("zip");
    reveal_strlit(".tar.xz");
    reveal_strlit(".tar.gz");
    reveal_strlit(".zip");
    assert(package + "."@ + "tar.xz"@ =~= package + ".tar.xz"@);
    assert(package + "."@ + "tar.gz"@ =~= package + ".tar.gz"@);
    assert(package + "."@ + "zip"@ =~= package + ".zip"@);
}

/// A step without a directory, an environment and an option is run in the work
/// directory, as it is by a build that was given no options.
pub proof fn law_plain_steps_are_steps(
    step: Step,
    vars: Map<Seq<char>, Seq<char>>,
    env: Map<Seq<char>, Seq<char>>,
    work: Seq<char>,
)
    requires
        is_plain_step(step, step.name@, step.run@),
    ensures
        is_enabled(step, Seq::empty()),
        plain_invocation(step.name@, step.run@, vars, env, work) == invocation_of(
            step,
            vars,
            env,
            work,
            Seq::empty(),
        ),
{
    reveal_strlit("");
    crate::text_map::lemma_listing_of_nothing();
    assert(crate::text::join(Seq::<Seq<char>>::empty(), " "@) =~= ""@);
}

/// A step that can be run is handed over as it is, and one that cannot is refused
/// with the error of its template.
pub proof fn law_steps_are_handed_over(
    result: Result<Invocation, BuildError>,
    invoked: Result<Invoked, Seq<char>>,
    vars: Map<Seq<char>, Seq<char>>,
)
    requires
        prepares(result, invoked, vars),
    ensures
        result is Ok <==> invoked is Ok,
        result matches Ok(invocation) ==> invocation.name@ == invoked->Ok_0.name
            && invocation.script@ == invoked->Ok_0.script && invocation.cwd@ == invoked->Ok_0.cwd
            && invocation.env@ == invoked->Ok_0.env,
        result matches Err(error) ==> error is Template && error->error.arises(
            vars,
            invoked->Err_0,
        ),
{
}

/// A step of the build itself says only what it is called and what it runs.
pub proof fn law_plain_steps_say_no_more(step: Step, name: Seq<char>, run: Seq<char>)
    requires
        is_plain_step(step, name, run),
    ensures
        step.name@ == name,
        step.run@ == run,
        step.cwd is None,
        step.when is None,
        forall|key: Seq<char>| !step.env@.contains_key(key),
{
}

/// The scripts of a build find each variable in their environment, as `PIE_` and its
/// name in capitals: ASCII letters are made capitals one by one.
pub proof fn law_exports_are_named_in_capitals(upper: Seq<char>, text: Seq<char>, i: int)
    requires
        0 <= i < text.len(),
    ensures
        export_name(upper) == "PIE_"@ + upper,
        ascii_uppercase(text).len() == text.len(),
        'a' <= text[i] <= 'z' ==> ascii_uppercase(text)[i] as int == text[i] as int - 32,
        !('a' <= text[i] <= 'z') ==> ascii_uppercase(text)[i] == text[i],
{
}

/// An environment that is laid over another sets each of its variables, one after the
/// other, to what its text expands to; it fails at the first without an expansion.
pub proof fn law_environments_are_laid_over(
    vars: Map<Seq<char>, Seq<char>>,
    env: Map<Seq<char>, Seq<char>>,
    list: Seq<(Seq<char>, Seq<char>)>,
    key: Seq<char>,
    text: Seq<char>,
)
    ensures
        layered(vars, env, Seq::empty()) == Ok::<Map<Seq<char>, Seq<char>>, Seq<char>>(env),
        layered(vars, env, list.push((key, text))) == (match layered(vars, env, list) {
            Ok(before) => match crate::template::expansion(vars, text) {
                Ok(value) => Ok::<Map<Seq<char>, Seq<char>>, Seq<char>>(before.insert(key, value)),
                Err(_) => Err(text),
            },
            Err(failed) => Err(failed),
        }),
    decreases list.len(),
{
    let longer = list.push((key, text));
    assert(layered(vars, env, Seq::empty()) == Ok::<Map<Seq<char>, Seq<char>>, Seq<char>>(env));
    if list.len() == 0 {
        assert(longer.drop_first() =~= Seq::empty());
        if let Ok(value) = crate::template::expansion(vars, text) {
            assert(layered(vars, env.insert(key, value), Seq::empty()) == Ok::<
                Map<Seq<char>, Seq<char>>,
                Seq<char>,
            >(env.insert(key, value)));
        }
    } else {
        assert(longer[0] == list[0]);
        assert(longer.drop_first() =~= list.drop_first().push((key, text)));
        if let Ok(value) = crate::template::expansion(vars, list[0].1) {
            law_environments_are_laid_over(
                vars,
                env.insert(list[0].0, value),
                list.drop_first(),
                key,
                text,
            );
        }
    }
}

/// Every variable is exported, one after the other.
pub proof fn law_every_variable_is_exported(
    env: Map<Seq<char>, Seq<char>>,
    list: Seq<(Seq<char>, Seq<char>)>,
    name: Seq<char>,
    value: Seq<char>,
)
    ensures
        exported(env, Seq::empty()) == env,
        exported(env, list.push((name, value))) == exported(env, list).insert(
            "PIE_"@ + name,
            value,
        ),
        uppercased(list).len() == list.len(),
        forall|i: int|
            0 <= i < list.len() ==> #[trigger] uppercased(list)[i] == (
                uppercase(list[i].0),
                list[i].1,
            ),
    decreases list.len(),
{
    let longer = list.push((name, value));
    assert(exported(env, Seq::empty()) == env);
    if list.len() == 0 {
        assert(longer.drop_first() =~= Seq::empty());
        assert(exported(env.insert("PIE_"@ + name, value), Seq::empty()) == env.insert(
            "PIE_"@ + name,
            value,
        ));
    } else {
        assert(longer[0] == list[0]);
        assert(longer.drop_first() =~= list.drop_first().push((name, value)));
        law_every_variable_is_exported(
            env.insert(export_name(list[0].0), list[0].1),
            list.drop_first(),
            name,
            value,
        );
    }
}

/// A source archive is unpacked with both paths in quotes.
pub proof fn law_unpacked_paths_are_quoted(
    filename: Seq<char>,
    archive: Seq<char>,
    src: Seq<char>,
    strip: u32,
)
    ensures
        unpack_script(filename, archive, src, strip) == unpack_words(
            filename,
            quoted(archive),
            quoted(src),
            strip,
        ),
        in_double_quotes(archive) == seq!['"'] + archive + seq!['"'],
{
    reveal_strlit("\"");
    assert("\""@ =~= seq!['"']);
}

} // verus!
