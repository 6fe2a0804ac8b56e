//! Recipe format: a manifest describing *what* to build.
//!
//! A recipe answers three questions, in order:
//!   1. which versions are official, and how to resolve the one that was asked for
//!   2. what has to be installed before the build, and where the source comes from
//!   3. how to configure, compile, verify and package it

use crate::path::{extension, file_stem, join_path};
use crate::text::{join_texts, same_text, trim_text};
use crate::text_map::TextMap;
use vstd::prelude::*;
use vstd::string::*;

verus! {

/// A recipe.
#[derive(Debug)]
pub struct Recipe {
    /// Short id used on the command line, e.g. `node`.
    pub name: String,
    /// Human readable name, e.g. `Node.js`.
    pub display_name: Option<String>,
    pub description: Option<String>,
    pub homepage: Option<String>,
    /// How `--version` is resolved and validated against the official release index.
    pub version: VersionSpec,
    /// Extra template variables, expanded after the built-ins.
    pub vars: TextMap,
    /// Environment applied to every build step.
    pub env: TextMap,
    /// Packages to install before building, per package manager.
    pub dependencies: Dependencies,
    /// Where the source archive comes from and how it is verified. Optional:
    /// a project whose build needs a git checkout (submodules, generated files)
    /// fetches its own source in the first build step instead.
    pub source: Option<Source>,
    /// How to build it.
    pub build: Vec<Step>,
    /// What must be a position independent executable when the build finishes.
    pub verify: Verify,
    /// How to turn the build tree into a distributable archive.
    pub package: Package,
    pub notes: Vec<String>,
}

/// How a version is resolved.
#[derive(Debug)]
pub struct VersionSpec {
    pub resolver: Resolver,
    /// nodejs: URL of the release index JSON.
    pub index: Option<String>,
    /// directory/php: URL of the listing of published releases.
    pub listing: Option<String>,
    /// directory: templated URL (`{{candidate}}`) that must exist for a candidate to count.
    pub probe: Option<String>,
    /// directory: prefix on each directory name, e.g. `v` or `mariadb-`.
    pub dir_prefix: Option<String>,
    /// github: `owner/repo`.
    pub repo: Option<String>,
    /// github: tag prefix to strip and re-add, e.g. `bun-v`.
    pub tag_prefix: Option<String>,
    /// github: resolve against tags instead of releases, for projects that tag
    /// releases without publishing a GitHub Release object.
    pub tags: bool,
    /// Aliases accepted in addition to an exact version, e.g. `lts`.
    pub aliases: Vec<String>,
}

/// Where official versions are listed.
#[derive(Debug, Clone, Copy, PartialEq, Eq, Structural)]
pub enum Resolver {
    /// nodejs.org/dist/index.json
    Nodejs,
    /// An autoindex directory listing (python.org, postgresql.org, mariadb.org)
    Directory,
    /// GitHub releases API
    Github,
    /// php.net release index (which also publishes per-file digests)
    Php,
}

/// What has to be installed before a build.
#[derive(Debug)]
pub struct Dependencies {
    pub apt: Vec<String>,
    pub dnf: Vec<String>,
    /// Free-form steps run after the package manager, e.g. installing a toolchain
    /// that is not packaged.
    pub extra: Vec<Step>,
}

impl Default for Dependencies {
    fn default() -> (deps: Dependencies)
        ensures
            deps.apt@.len() == 0,
            deps.dnf@.len() == 0,
            deps.extra@.len() == 0,
    {
        Dependencies { apt: Vec::new(), dnf: Vec::new(), extra: Vec::new() }
    }
}

/// A source archive.
#[derive(Debug)]
pub struct Source {
    /// Templated URL of the source archive.
    pub url: String,
    /// Directory (relative to the work dir) to unpack into.
    pub dir: String,
    pub strip_components: u32,
    pub checksum: Option<Checksum>,
}

/// The directory that a source archive is unpacked into by default.
pub fn default_src_dir() -> (dir: String)
    ensures
        dir@ == "src"@,
{
    "src".to_owned()
}

/// How many leading path components are stripped by default.
pub fn default_strip_components() -> (count: u32)
    ensures
        count == 1,
{
    1
}

/// How a source archive is verified.
#[derive(Debug)]
pub struct Checksum {
    pub kind: ChecksumKind,
    /// For `sha256-manifest`: templated URL of a `sha256  filename` list.
    pub url: Option<String>,
    /// For `sha256`: the expected digest.
    pub value: Option<String>,
}

/// Where the expected digest of a source archive comes from.
#[derive(Debug, Clone, Copy, PartialEq, Eq, Structural)]
pub enum ChecksumKind {
    /// A digest given inline in the recipe.
    Sha256,
    /// A `SHASUMS256.txt`-style manifest listing many files.
    Sha256Manifest,
    /// The digest published by the project's own release index.
    FromIndex,
    /// No published checksum: record the digest but do not gate on it.
    Record,
}

/// A step of a build.
#[derive(Debug)]
pub struct Step {
    pub name: String,
    /// Shell script, run with `bash -euo pipefail`.
    pub run: String,
    /// Working directory, relative to the work dir.
    pub cwd: Option<String>,
    /// Step-local environment, layered over the recipe environment.
    pub env: TextMap,
    /// Skip unless this build was asked for the named option (`--with <opt>`).
    pub when: Option<String>,
}

/// What is checked of a build.
#[derive(Debug)]
pub struct Verify {
    /// Paths in the build tree that must be real position independent executables.
    pub pie: Vec<String>,
    /// Paths checked again after the staging install, when they exist.
    pub packaged: Vec<String>,
    /// Paths whose only allowed `DT_NEEDED` entries are `dynamic_allowlist`.
    pub self_contained: Vec<String>,
    pub dynamic_allowlist: Vec<String>,
    /// Smoke tests, run after the artifact is unpacked to a fresh prefix.
    pub smoke: Vec<Step>,
}

impl Default for Verify {
    fn default() -> (verify: Verify)
        ensures
            verify.pie@.len() == 0,
            verify.packaged@.len() == 0,
            verify.self_contained@.len() == 0,
            verify.dynamic_allowlist@.len() == 0,
            verify.smoke@.len() == 0,
    {
        Verify {
            pie: Vec::new(),
            packaged: Vec::new(),
            self_contained: Vec::new(),
            dynamic_allowlist: Vec::new(),
            smoke: Vec::new(),
        }
    }
}

/// How a build is packaged.
#[derive(Debug)]
pub struct Package {
    /// Templated archive name without extension.
    pub name: String,
    /// Steps that populate `{{stage}}`.
    pub steps: Vec<Step>,
    pub format: Format,
    /// Directory created inside the archive. Defaults to the package name.
    pub inner_dir: Option<String>,
}

/// The format of an archive.
#[derive(Debug, Clone, Copy, PartialEq, Eq, Structural)]
pub enum Format {
    TarXz,
    TarGz,
    Zip,
}

impl Format {
    /// The extension of archives of this format.
    pub open spec fn suffix(self) -> Seq<char> {
        match self {
            Format::TarXz => "tar.xz"@,
            Format::TarGz => "tar.gz"@,
            Format::Zip => "zip"@,
        }
    }

    /// The extension of archives of this format.
    pub fn extension(self) -> (extension: &'static str)
        ensures
            extension@ == self.suffix(),
    {
        match self {
            Format::TarXz => "tar.xz",
            Format::TarGz => "tar.gz",
            Format::Zip => "zip",
        }
    }
}

impl Recipe {
    /// The name that people know the project by.
    pub open spec fn heading(self) -> Seq<char> {
        match self.display_name {
            Some(name) => name@,
            None => self.name@,
        }
    }

    /// The name that people know the project by: the display name, or the id
    /// where there is none.
    pub fn title(&self) -> (title: &str)
        ensures
            title@ == self.heading(),
    {
        match &self.display_name {
            Some(name) => name.as_str(),
            None => self.name.as_str(),
        }
    }
}

// -- looking recipes up ------------------------------------------------------

/// Extensions a recipe may use, in precedence order: a `.pkl` next to a `.yaml`
/// wins, because the `.pkl` is the source and the `.yaml` is its output.
pub const EXTENSIONS: [&'static str; 3] = ["pkl", "yaml", "yml"];

/// The path of a recipe with the extension `index`.
pub open spec fn candidate(dir: Seq<char>, name: Seq<char>, index: int) -> Seq<char> {
    crate::path::joined(dir, name + "."@ + EXTENSIONS@[index]@)
}

/// `extension` is one that a recipe may use.
pub open spec fn is_recipe_extension(extension: Seq<char>) -> bool {
    exists|i: int| 0 <= i < 3 && #[trigger] EXTENSIONS@[i]@ == extension
}

/// Why there is no recipe to build.
#[derive(Debug)]
pub enum RecipeError {
    /// No file in `dir` is the recipe `name`; there are `available` ones.
    NotFound { name: String, dir: String, available: Vec<String> },
    /// The recipe at `path` needs the `pkl` program, which is not installed.
    PklMissing { path: String },
    /// The `pkl` program could not be run.
    PklFailed { cause: String },
    /// The `pkl` program refused the recipe at `path`.
    Rejected { path: String, reason: String },
    /// The `pkl` program wrote something that is not text.
    NotUtf8 { cause: String },
}

impl RecipeError {
    /// The error in words.
    pub open spec fn words(self) -> Seq<char> {
        match self {
            RecipeError::NotFound { name, dir, available } => if available@.len() == 0 {
                "no recipe named '"@ + name@ + "' in "@ + dir@
            } else {
                "no recipe named '"@ + name@ + "' in "@ + dir@ + " (available: "@
                    + crate::text::join(crate::text::texts(available@), ", "@) + ")"@
            },
            RecipeError::PklMissing { path } => path@
                + " is a Pkl recipe but the `pkl` CLI is not installed "@
                + "(see https://pkl-lang.org/main/current/pkl-cli/), or build the generated "@
                + (match crate::path::stem_of(path@) {
                Some(stem) => stem,
                None => Seq::empty(),
            }) + ".yaml instead"@,
            RecipeError::PklFailed { cause } => "running pkl: "@ + cause@,
            RecipeError::Rejected { path, reason } => "pkl rejected "@ + path@ + ":\n"@ + reason@,
            RecipeError::NotUtf8 { cause } => "pkl produced invalid UTF-8: "@ + cause@,
        }
    }

    /// The error in words.
    pub fn message(&self) -> (text: String)
        ensures
            text@ == self.words(),
    {
        match self {
            RecipeError::NotFound { name, dir, available } => {
                let mut text = "no recipe named '".to_owned();
                text.append(name.as_str());
                text.append("' in ");
                text.append(dir.as_str());
                if available.len() > 0 {
                    text.append(" (available: ");
                    text.append(join_texts(available, ", ").as_str());
                    text.append(")");
                }
                text
            },
            RecipeError::PklMissing { path } => {
                let mut text = path.clone();
                text.append(" is a Pkl recipe but the `pkl` CLI is not installed ");
                text.append(
                    "(see https://pkl-lang.org/main/current/pkl-cli/), or build the generated ",
                );
                let stem = match file_stem(path.as_str()) {
                    Some(stem) => stem,
                    None => String::new(),
                };
                text.append(stem.as_str());
                text.append(".yaml instead");
                text
            },
            RecipeError::PklFailed { cause } => {
                let mut text = "running pkl: ".to_owned();
                text.append(cause.as_str());
                text
            },
            RecipeError::Rejected { path, reason } => {
                let mut text = "pkl rejected ".to_owned();
                text.append(path.as_str());
                text.append(":\n");
                text.append(reason.as_str());
                text
            },
            RecipeError::NotUtf8 { cause } => {
                let mut text = "pkl produced invalid UTF-8: ".to_owned();
                text.append(cause.as_str());
                text
            },
        }
    }
}

/// The paths `<dir>/<name>.pkl`, `.yaml` and `.yml` that a recipe may be at, in
/// that order.
pub fn candidates(dir: &str, name: &str) -> (paths: Vec<String>)
    ensures
        crate::text::texts(paths@) == Seq::new(3, |i: int| candidate(dir@, name@, i)),
{
    let mut paths: Vec<String> = Vec::new();
    let mut i: usize = 0;
    while i < 3
        invariant
            i <= 3,
            paths@.len() == i,
            forall|j: int| 0 <= j < i ==> #[trigger] paths@[j]@ == candidate(dir@, name@, j),
        decreases 3 - i,
    {
        let mut file = name.to_owned();
        file.append(".");
        file.append(EXTENSIONS[i]);
        paths.push(join_path(dir, file.as_str()));
        i += 1;
    }
    assert(crate::text::texts(paths@) =~= Seq::new(3, |i: int| candidate(dir@, name@, i)));
    paths
}

/// The first of the candidates that is a file.
pub open spec fn first_present(is_file: Seq<bool>) -> Option<int> {
    if is_file[0] {
        Some(0)
    } else if is_file[1] {
        Some(1)
    } else if is_file[2] {
        Some(2)
    } else {
        None
    }
}

/// Finds `<dir>/<name>.pkl`, `.yaml` or `.yml`, in that order. `is_file` says of
/// each of the three whether there is such a file, and `available` names the
/// recipes of the directory.
pub fn find(dir: &str, name: &str, is_file: [bool; 3], available: Vec<String>) -> (path: Result<
    String,
    RecipeError,
>)
    ensures
        match path {
            Ok(path) => first_present(is_file@) matches Some(index) && path@ == candidate(
                dir@,
                name@,
                index,
            ),
            Err(error) => first_present(is_file@) is None && match error {
                RecipeError::NotFound { name: wanted, dir: searched, available: others } => wanted@
                    == name@ && searched@ == dir@ && others == available,
                _ => false,
            },
        },
{
    let mut i: usize = 0;
    while i < 3
        invariant
            i <= 3,
            forall|j: int| 0 <= j < i ==> !is_file@[j],
        decreases 3 - i,
    {
        if is_file[i] {
            let mut file = name.to_owned();
            file.append(".");
            file.append(EXTENSIONS[i]);
            return Ok(join_path(dir, file.as_str()));
        }
        i += 1;
    }
    Err(RecipeError::NotFound { name: name.to_owned(), dir: dir.to_owned(), available })
}

/// Whether a recipe may use `extension`.
fn known_extension(extension: &str) -> (known: bool)
    ensures
        known == is_recipe_extension(extension@),
{
    let mut i: usize = 0;
    while i < 3
        invariant
            i <= 3,
            forall|j: int| 0 <= j < i ==> #[trigger] EXTENSIONS@[j]@ != extension@,
        decreases 3 - i,
    {
        if same_text(EXTENSIONS[i], extension) {
            return true;
        }
        i += 1;
    }
    false
}

/// `path` is a recipe with the id `id`.
pub open spec fn is_recipe(path: Seq<char>, id: Seq<char>) -> bool {
    &&& crate::path::extension_of(path) matches Some(extension) && is_recipe_extension(extension)
    &&& crate::path::stem_of(path) == Some(id)
}

/// The recipe ids among the paths of a directory, sorted and deduplicated: a
/// recipe with both a `.pkl` source and its generated `.yaml` is still one recipe.
pub fn list(paths: &Vec<String>) -> (ids: Vec<String>)
    ensures
        crate::text_map::ascending_texts(crate::text::texts(ids@)),
        forall|id: Seq<char>|
            #![trigger crate::text::texts(ids@).contains(id)]
            crate::text::texts(ids@).contains(id) <==> exists|i: int|
                0 <= i < paths@.len() && is_recipe(#[trigger] paths@[i]@, id),
{
    let mut found = TextMap::new();
    let mut i: usize = 0;
    while i < paths.len()
        invariant
            i <= paths@.len(),
            forall|id: Seq<char>| #[trigger]
                found@.contains_key(id) <==> exists|j: int|
                    0 <= j < i && is_recipe(#[trigger] paths@[j]@, id),
        decreases paths@.len() - i,
    {
        let ghost before = found@;
        let path = paths[i].as_str();
        let known = match extension(path) {
            Some(extension) => known_extension(extension.as_str()),
            None => false,
        };
        if known {
            match file_stem(path) {
                Some(stem) => found.insert(stem, String::new()),
                None => {},
            }
        }
        proof {
            assert forall|id: Seq<char>| #[trigger]
                found@.contains_key(id) <==> exists|j: int|
                    0 <= j < i + 1 && is_recipe(#[trigger] paths@[j]@, id) by {
                if found@.contains_key(id) {
                    if before.contains_key(id) {
                        let j = choose|j: int|
                            0 <= j < i && is_recipe(#[trigger] paths@[j]@, id);
                        assert(is_recipe(paths@[j]@, id));
                    } else {
                        assert(is_recipe(paths@[i as int]@, id));
                    }
                }
                if exists|j: int| 0 <= j < i + 1 && is_recipe(#[trigger] paths@[j]@, id) {
                    let j = choose|j: int|
                        0 <= j < i + 1 && is_recipe(#[trigger] paths@[j]@, id);
                    if j < i {
                        assert(before.contains_key(id));
                    }
                }
            }
        }
        i += 1;
    }
    let ids = found.keys();
    proof {
        assert forall|id: Seq<char>|
            #![trigger crate::text::texts(ids@).contains(id)]
            crate::text::texts(ids@).contains(id) <==> exists|j: int|
                0 <= j < paths@.len() && is_recipe(#[trigger] paths@[j]@, id) by {
            assert(crate::text::texts(ids@).contains(id) <==> found@.contains_key(id));
        }
    }
    ids
}

/// Whether `path` is a Pkl source.
pub open spec fn is_pkl_path(path: Seq<char>) -> bool {
    crate::path::extension_of(path) == Some("pkl"@)
}

/// Whether `path` is a Pkl source.
pub fn is_pkl(path: &str) -> (pkl: bool)
    ensures
        pkl == is_pkl_path(path@),
{
    match extension(path) {
        Some(extension) => same_text(extension.as_str(), "pkl"),
        None => false,
    }
}

/// The Pkl sources among the paths of a directory, sorted.
pub fn pkl_sources(paths: &Vec<String>) -> (sources: Vec<String>)
    ensures
        crate::text_map::ascending_texts(crate::text::texts(sources@)),
        forall|path: Seq<char>|
            #![trigger crate::text::texts(sources@).contains(path)]
            crate::text::texts(sources@).contains(path) <==> is_pkl_path(path)
                && crate::text::texts(paths@).contains(path),
{
    let mut found = TextMap::new();
    let mut i: usize = 0;
    while i < paths.len()
        invariant
            i <= paths@.len(),
            forall|path: Seq<char>| #[trigger]
                found@.contains_key(path) <==> is_pkl_path(path) && exists|j: int|
                    0 <= j < i && #[trigger] paths@[j]@ == path,
        decreases paths@.len() - i,
    {
        let ghost before = found@;
        if is_pkl(paths[i].as_str()) {
            found.insert(paths[i].clone(), String::new());
        }
        proof {
            assert forall|path: Seq<char>| #[trigger]
                found@.contains_key(path) <==> is_pkl_path(path) && exists|j: int|
                    0 <= j < i + 1 && #[trigger] paths@[j]@ == path by {
                if found@.contains_key(path) {
                    if before.contains_key(path) {
                        let j = choose|j: int| 0 <= j < i && #[trigger] paths@[j]@ == path;
                        assert(paths@[j]@ == path);
                    } else {
                        assert(paths@[i as int]@ == path);
                    }
                }
                if is_pkl_path(path) && exists|j: int|
                    0 <= j < i + 1 && #[trigger] paths@[j]@ == path {
                    let j = choose|j: int| 0 <= j < i + 1 && #[trigger] paths@[j]@ == path;
                    if j < i {
                        assert(before.contains_key(path));
                    }
                }
            }
        }
        i += 1;
    }
    let sources = found.keys();
    proof {
        assert forall|path: Seq<char>|
            #![trigger crate::text::texts(sources@).contains(path)]
            crate::text::texts(sources@).contains(path) <==> is_pkl_path(path)
                && crate::text::texts(paths@).contains(path) by {
            assert(crate::text::texts(sources@).contains(path) <==> found@.contains_key(path));
            if exists|j: int| 0 <= j < i && #[trigger] paths@[j]@ == path {
                let j = choose|j: int| 0 <= j < i && #[trigger] paths@[j]@ == path;
                assert(crate::text::texts(paths@)[j] == path);
            }
            if crate::text::texts(paths@).contains(path) {
                let j = choose|j: int|
                    0 <= j < crate::text::texts(paths@).len() && crate::text::texts(paths@)[j]
                        == path;
                assert(paths@[j]@ == path);
            }
        }
    }
    sources
}

// -- rendering recipes -------------------------------------------------------

/// What `String::from_utf8_lossy` makes of some bytes.
pub uninterp spec fn lossy_utf8(bytes: Seq<u8>) -> Seq<char>;

/// `String::from_utf8_lossy` takes bytes for text, with a replacement character
/// for what is not valid UTF-8; bytes that are valid are taken as they stand.
#[verifier::external_body]
pub(crate) fn text_from_lossy(bytes: &[u8]) -> (text: String)
    ensures
        text@ == lossy_utf8(bytes@),
        vstd::utf8::valid_utf8(bytes@) ==> text@ == vstd::utf8::decode_utf8(bytes@),
{
    String::from_utf8_lossy(bytes).into_owned()
}

/// What `String::from_utf8` says of bytes that are not valid UTF-8.
pub uninterp spec fn utf8_complaint(bytes: Seq<u8>) -> Seq<char>;

/// `String::from_utf8` takes bytes for text where they are valid UTF-8, as they
/// stand. Where they are not, what its error says is named.
#[verifier::external_body]
fn text_from_utf8(bytes: Vec<u8>) -> (text: Result<String, String>)
    ensures
        match text {
            Ok(text) => vstd::utf8::valid_utf8(bytes@) && text@ == vstd::utf8::decode_utf8(bytes@),
            Err(cause) => !vstd::utf8::valid_utf8(bytes@) && cause@ == utf8_complaint(bytes@),
        },
{
    match String::from_utf8(bytes) {
        Ok(text) => Ok(text),
        Err(error) => Err(error.to_string()),
    }
}

/// The text that `pkl` produced, or what is wrong with it as UTF-8.
pub fn accept_text(decoded: Result<String, String>) -> (text: Result<String, RecipeError>)
    ensures
        match decoded {
            Ok(produced) => text matches Ok(text) && text@ == produced@,
            Err(cause) => text matches Err(RecipeError::NotUtf8 { cause: stated }) && stated@
                == cause@,
        },
{
    match decoded {
        Ok(text) => Ok(text),
        Err(cause) => Err(RecipeError::NotUtf8 { cause }),
    }
}

/// How the text of a recipe is to be had.
#[derive(Debug, Clone, Copy, PartialEq, Eq, Structural)]
pub enum Rendering {
    /// By reading the file.
    Read,
    /// By evaluating the file with the `pkl` program.
    Evaluate,
}

/// How the recipe at `path` is read as YAML: a Pkl source is evaluated with the
/// `pkl` CLI first, so that type and constraint errors in the schema surface
/// before anything is downloaded or built.
pub fn render(path: &str) -> (rendering: Rendering)
    ensures
        rendering == (if is_pkl_path(path@) {
            Rendering::Evaluate
        } else {
            Rendering::Read
        }),
{
    if is_pkl(path) {
        Rendering::Evaluate
    } else {
        Rendering::Read
    }
}

/// What came of running the `pkl` program.
#[derive(Debug)]
pub enum PklRun {
    /// There is no such program.
    Missing,
    /// It could not be run.
    Failed { cause: String },
    /// It ran, and wrote this to its output and error channels.
    Ran { success: bool, stdout: Vec<u8>, stderr: Vec<u8> },
}

/// The text that evaluating the recipe at `path` gave.
pub fn rendered(path: &str, run: PklRun) -> (text: Result<String, RecipeError>)
    ensures
        match run {
            PklRun::Missing => text matches Err(RecipeError::PklMissing { path: missing })
                && missing@ == path@,
            PklRun::Failed { cause } => text matches Err(RecipeError::PklFailed { cause: stated })
                && stated@ == cause@,
            PklRun::Ran { success, stdout, stderr } => if !success {
                text matches Err(RecipeError::Rejected { path: refused, reason }) && refused@
                    == path@ && reason@ == crate::text::trimmed(lossy_utf8(stderr@))
            } else if !vstd::utf8::valid_utf8(stdout@) {
                text matches Err(RecipeError::NotUtf8 { cause }) && cause@ == utf8_complaint(stdout@)
            } else {
                text matches Ok(text) && text@ == vstd::utf8::decode_utf8(stdout@)
            },
        },
{
    match run {
        PklRun::Missing => Err(RecipeError::PklMissing { path: path.to_owned() }),
        PklRun::Failed { cause } => Err(RecipeError::PklFailed { cause }),
        PklRun::Ran { success, stdout, stderr } => {
            if !success {
                let reason = trim_text(text_from_lossy(&stderr).as_str());
                return Err(RecipeError::Rejected { path: path.to_owned(), reason });
            }
            accept_text(text_from_utf8(stdout))
        },
    }
}

// -- laws --------------------------------------------------------------------

/// A Pkl source is found whatever else stands beside it, so a stale render can
/// never be built by accident.
pub proof fn law_pkl_wins(is_file: Seq<bool>, dir: Seq<char>, name: Seq<char>)
    requires
        is_file.len() == 3,
        is_file[0],
    ensures
        first_present(is_file) == Some(0int),
        candidate(dir, name, 0) == crate::path::joined(dir, name + "."@ + "pkl"@),
{
}

/// A recipe is looked for with the extensions `pkl`, `yaml` and `yml`, in this order,
/// and the first that is there is taken; none is only where none is there.
pub proof fn law_first_recipe_is_taken(is_file: Seq<bool>, dir: Seq<char>, name: Seq<char>)
    requires
        is_file.len() == 3,
    ensures
        candidate(dir, name, 0) == crate::path::joined(dir, name + ".pkl"@),
        candidate(dir, name, 1) == crate::path::joined(dir, name + ".yaml"@),
        candidate(dir, name, 2) == crate::path::joined(dir, name + ".yml"@),
        match first_present(is_file) {
            Some(index) => 0 <= index < 3 && is_file[index] && forall|i: int|
                0 <= i < index ==> !#[trigger] is_file[i],
            None => forall|i: int| 0 <= i < 3 ==> !#[trigger] is_file[i],
        },
{
    lemma_extensions();
    reveal_strlit(".");
    reveal_strlit("pkl");
    reveal_strlit("yaml");
    reveal_strlit("yml");
    reveal_strlit(".pkl");
    reveal_strlit(".yaml");
    reveal_strlit(".yml");
    assert(name + "."@ + "pkl"@ =~= name + ".pkl"@);
    assert(name + "."@ + "yaml"@ =~= name + ".yaml"@);
    assert(name + "."@ + "yml"@ =~= name + ".yml"@);
}

proof fn lemma_extensions()
    ensures
        EXTENSIONS@[0]@ == "pkl"@,
        EXTENSIONS@[1]@ == "yaml"@,
        EXTENSIONS@[2]@ == "yml"@,
{
}

/// The recipes are the files with one of the three extensions, and a recipe has the
/// name of its file without the extension as its id.
pub proof fn law_recipes_are_known_by_their_extension(path: Seq<char>, id: Seq<char>)
    requires
        id.len() > 0,
    ensures
        is_recipe(path, id) <==> crate::path::name_of(path) == Some(id + ".pkl"@)
            || crate::path::name_of(path) == Some(id + ".yaml"@) || crate::path::name_of(path)
            == Some(id + ".yml"@),
{
    lemma_extensions();
    lemma_extended(path, id, "pkl"@, ".pkl"@);
    lemma_extended(path, id, "yaml"@, ".yaml"@);
    lemma_extended(path, id, "yml"@, ".yml"@);
    if is_recipe(path, id) {
        let extension = crate::path::extension_of(path)->Some_0;
        let i = choose|i: int| 0 <= i < 3 && #[trigger] EXTENSIONS@[i]@ == extension;
        assert(extension == "pkl"@ || extension == "yaml"@ || extension == "yml"@);
    }
    if crate::path::name_of(path) == Some(id + ".pkl"@) {
        assert(EXTENSIONS@[0]@ == "pkl"@);
    }
    if crate::path::name_of(path) == Some(id + ".yaml"@) {
        assert(EXTENSIONS@[1]@ == "yaml"@);
    }
    if crate::path::name_of(path) == Some(id + ".yml"@) {
        assert(EXTENSIONS@[2]@ == "yml"@);
    }
}

proof fn lemma_extended(path: Seq<char>, id: Seq<char>, extension: Seq<char>, dotted: Seq<char>)
    requires
        id.len() > 0,
        extension == "pkl"@ && dotted == ".pkl"@ || extension == "yaml"@ && dotted == ".yaml"@
            || extension == "yml"@ && dotted == ".yml"@,
    ensures
        crate::path::name_of(path) == Some(id + dotted) <==> crate::path::extension_of(path)
            == Some(extension) && crate::path::stem_of(path) == Some(id),
{
    reveal_strlit("pkl");
    reveal_strlit("yaml");
    reveal_strlit("yml");
    reveal_strlit(".pkl");
    reveal_strlit(".yaml");
    reveal_strlit(".yml");
    assert(dotted =~= seq!['.'] + extension);
    assert(id + dotted =~= id + seq!['.'] + extension);
    if crate::path::name_of(path) == Some(id + dotted) {
        crate::path::law_names_are_parted_at_the_last_dot(path, id, extension);
    }
    if crate::path::extension_of(path) == Some(extension) && crate::path::stem_of(path) == Some(
        id,
    ) {
        let name = crate::path::name_of(path)->Some_0;
        crate::text::lemma_last_of(name, '.');
        let at = crate::path::extension_dot(name)->Some_0;
        assert(name =~= name.take(at) + seq!['.'] + name.skip(at + 1));
    }
}

/// Pkl recipes are the files with the extension `pkl`.
pub proof fn law_pkl_recipes_have_the_extension(path: Seq<char>, stem: Seq<char>)
    requires
        stem.len() > 0,
    ensures
        crate::path::name_of(path) == Some(stem + ".pkl"@) ==> is_pkl_path(path),
        is_pkl_path(path) && crate::path::stem_of(path) == Some(stem) ==> crate::path::name_of(path)
            == Some(stem + ".pkl"@),
        is_pkl_path(path) ==> crate::path::stem_of(path) is Some,
{
    lemma_extended(path, stem, "pkl"@, ".pkl"@);
}

/// A recipe is titled by its display name, or by its name where it has none.
pub proof fn law_display_names_are_titles(recipe: Recipe)
    ensures
        recipe.display_name matches Some(title) ==> recipe.heading() == title@,
        recipe.display_name is None ==> recipe.heading() == recipe.name@,
{
}

/// A recipe that is not found is named, and so are all that are there.
pub proof fn law_missing_recipes_are_told(
    name: String,
    dir: String,
    available: Vec<String>,
    path: String,
    stem: Seq<char>,
)
    ensures
        ({
            let start = "no recipe named '"@ + name@ + "' in "@ + dir@;
            let words = (RecipeError::NotFound { name, dir, available }).words();
            &&& available@.len() == 0 ==> words == start
            &&& available@.len() > 0 ==> words == start + " (available: "@ + crate::text::join(
                crate::text::texts(available@),
                ", "@,
            ) + ")"@
        }),
        crate::path::stem_of(path@) == Some(stem) ==> (stem + ".yaml instead"@).is_suffix_of(
            (RecipeError::PklMissing { path }).words(),
        ) && path@.is_prefix_of((RecipeError::PklMissing { path }).words()),
{
    let words = (RecipeError::PklMissing { path }).words();
    let end = stem + ".yaml instead"@;
    if crate::path::stem_of(path@) == Some(stem) {
        assert(words.subrange(words.len() - end.len(), words.len() as int) =~= end);
        assert(words.take(path@.len() as int) =~= path@);
        assert(path@.is_prefix_of(words));
    }
}

} // verus!
