//! The build pipeline: resolve → install dependencies → download source →
//! build → verify → package.

use crate::number::{pad_left, write_decimal};
use crate::path::join_path;
use crate::recipe::{Recipe, Step};
use crate::resolve::Resolved;
use crate::template::{TemplateError, Vars};
use crate::text::{chars_of, same_text, split_on, string_of, trim_text};
use crate::text_map::TextMap;
use crate::ui::brand::Tint;
use crate::ui::{format_bytes, format_duration, Elapsed, Reporter};
use vstd::prelude::*;
use vstd::string::*;

pub mod checksum;
pub mod digest;
pub mod download;
pub mod error;
pub mod steps;
pub mod verify;

pub use crate::number::hex;
pub use checksum::{verify_checksum, Checked, ManifestQuery};
pub use digest::sha256_file;
pub use download::{content_length, Download, DownloadError};
pub use error::BuildError;
pub use steps::{
    create_archive, digest_file, export, extract_for_verification, extraction_paths,
    install_dependencies, layer, locate_source, prepare_archive, prepare_dependencies,
    prepare_extraction, prepare_unpacking, run_step, step_enabled, unpack_source,
    write_artifact_name, write_unpack_script, Fetch, Invocation, Managers, NO_DEPENDENCIES,
};
pub use verify::{
    verify_packaged, verify_pie, verify_self_contained, Check, Finding, Inspection, LinkCheck,
    LinkInspection,
};

verus! {

/// Every template variable a recipe may use. A recipe lint uses it to reject
/// typo'd variables before a build ever starts.
pub const TEMPLATE_VARIABLES: [&'static str; 20] = [
    "name",
    "version",
    "version_bare",
    "version_major",
    "version_minor",
    "version_xy",
    "upstream_tag",
    "os",
    "arch",
    "arch_gnu",
    "nproc",
    "workdir",
    "srcdir",
    "dist",
    "deps_prefix",
    "repo_root",
    "sudo",
    // Set once the package name is known, and after the artifact is unpacked.
    "package",
    "stage",
    "extracted",
];

/// What a build was asked for.
#[derive(Debug)]
pub struct Options {
    pub recipe_path: String,
    pub version: String,
    pub arch: String,
    pub output: String,
    pub work_dir: String,
    pub with: Vec<String>,
    pub skip_dependencies: bool,
    pub keep_work: bool,
    pub dry_run: bool,
    pub verbose: bool,
}

/// The machine that a build runs on.
#[derive(Debug)]
pub struct Host {
    /// How many processes run at a time.
    pub nproc: u64,
    /// The directory that the build was started in.
    pub repo_root: String,
    /// Whether the build runs as root.
    pub root: bool,
}

/// Whether the output of `id -u`, where it could be had, is that of root.
pub fn is_root(uid: Option<&str>) -> (root: bool)
    ensures
        root == (uid matches Some(text) && crate::text::trimmed(text@) == "0"@),
{
    match uid {
        Some(text) => same_text(trim_text(text).as_str(), "0"),
        None => false,
    }
}

/// The name of an architecture in GNU triplets.
pub open spec fn gnu_name(arch: Seq<char>) -> Seq<char> {
    if arch == "arm64"@ || arch == "aarch64"@ {
        "aarch64"@
    } else {
        "x86_64"@
    }
}

/// The name of an architecture in GNU triplets.
pub fn gnu_arch(arch: &str) -> (name: &'static str)
    ensures
        name@ == gnu_name(arch@),
{
    if same_text(arch, "arm64") || same_text(arch, "aarch64") {
        "aarch64"
    } else {
        "x86_64"
    }
}

// -- variables ---------------------------------------------------------------

/// Where the trees of a build lie.
#[derive(Debug)]
pub struct Places {
    pub work: String,
    pub dist: String,
    pub src: String,
    pub deps_prefix: String,
}

/// The model of `Places`.
pub struct Layout {
    pub work: Seq<char>,
    pub dist: Seq<char>,
    pub src: Seq<char>,
    pub deps_prefix: Seq<char>,
}

impl View for Places {
    type V = Layout;

    open spec fn view(&self) -> Layout {
        Layout {
            work: self.work@,
            dist: self.dist@,
            src: self.src@,
            deps_prefix: self.deps_prefix@,
        }
    }
}

/// The part of a version at `at`, or nothing where it has fewer.
pub open spec fn version_part(bare: Seq<char>, at: int) -> Seq<char> {
    let parts = crate::text::split(bare, "."@);
    if at < parts.len() {
        parts[at]
    } else {
        ""@
    }
}

/// The first two parts of a version.
pub open spec fn version_xy(bare: Seq<char>) -> Seq<char> {
    if crate::text::split(bare, "."@).len() >= 2 {
        version_part(bare, 0) + "."@ + version_part(bare, 1)
    } else {
        bare
    }
}

/// The variables that every recipe may build on.
pub open spec fn built_ins(
    recipe: Recipe,
    resolved: Resolved,
    opts: Options,
    host: Host,
    layout: Layout,
) -> Map<Seq<char>, Seq<char>> {
    Map::<Seq<char>, Seq<char>>::empty().insert("name"@, recipe.name@).insert(
        "version"@,
        resolved.version@,
    ).insert("version_bare"@, resolved.bare@).insert(
        "version_major"@,
        version_part(resolved.bare@, 0),
    ).insert("version_minor"@, version_part(resolved.bare@, 1)).insert(
        "version_xy"@,
        version_xy(resolved.bare@),
    ).insert(
        "upstream_tag"@,
        match resolved.upstream_tag {
            Some(tag) => tag@,
            None => ""@,
        },
    ).insert("os"@, "linux"@).insert("arch"@, opts.arch@).insert(
        "arch_gnu"@,
        gnu_name(opts.arch@),
    ).insert("nproc"@, crate::number::decimal(host.nproc as nat)).insert(
        "workdir"@,
        layout.work,
    ).insert("srcdir"@, layout.src).insert("dist"@, layout.dist).insert(
        "deps_prefix"@,
        layout.deps_prefix,
    ).insert("repo_root"@, host.repo_root@).insert(
        "sudo"@,
        if host.root {
            ""@
        } else {
            "sudo "@
        },
    )
}

/// Variables with those of a recipe set after them, each of which may build on
/// those before it. Where one cannot be expanded, it is the error, with the
/// variables that there were.
pub open spec fn with_recipe_vars(
    vars: Map<Seq<char>, Seq<char>>,
    list: Seq<(Seq<char>, Seq<char>)>,
) -> Result<Map<Seq<char>, Seq<char>>, (Map<Seq<char>, Seq<char>>, Seq<char>)>
    decreases list.len(),
{
    if list.len() == 0 {
        Ok(vars)
    } else {
        match crate::template::expansion(vars, list[0].1) {
            Ok(value) => with_recipe_vars(vars.insert(list[0].0, value), list.drop_first()),
            Err(_) => Err((vars, list[0].1)),
        }
    }
}

/// The variables that every recipe may build on.
fn set_built_ins(
    recipe: &Recipe,
    resolved: &Resolved,
    opts: &Options,
    host: &Host,
    places: &Places,
) -> (vars: Vars)
    ensures
        vars@ == built_ins(*recipe, *resolved, *opts, *host, places@),
{
    proof {
        reveal_strlit(".");
    }
    let bare = chars_of(resolved.bare.as_str());
    let dot = chars_of(".");
    let parts = split_on(&bare, &dot);
    let ghost pieces = crate::text::pieces(parts@);
    let major = if parts.len() > 0 {
        assert(pieces[0] == parts@[0]@);
        string_of(parts[0])
    } else {
        "".to_owned()
    };
    let minor = if parts.len() > 1 {
        assert(pieces[1] == parts@[1]@);
        string_of(parts[1])
    } else {
        "".to_owned()
    };
    let xy = if parts.len() > 1 {
        let mut xy = major.clone();
        xy.append(".");
        xy.append(minor.as_str());
        xy
    } else {
        resolved.bare.clone()
    };
    let tag = match &resolved.upstream_tag {
        Some(tag) => tag.as_str(),
        None => "",
    };
    let sudo = if host.root {
        ""
    } else {
        "sudo "
    };
    let mut vars = Vars::new();
    vars.set("name", recipe.name.as_str());
    vars.set("version", resolved.version.as_str());
    vars.set("version_bare", resolved.bare.as_str());
    vars.set("version_major", major.as_str());
    vars.set("version_minor", minor.as_str());
    vars.set("version_xy", xy.as_str());
    vars.set("upstream_tag", tag);
    vars.set("os", "linux");
    vars.set("arch", opts.arch.as_str());
    vars.set("arch_gnu", gnu_arch(opts.arch.as_str()));
    vars.set("nproc", write_decimal(host.nproc).as_str());
    vars.set("workdir", places.work.as_str());
    vars.set("srcdir", places.src.as_str());
    vars.set("dist", places.dist.as_str());
    vars.set("deps_prefix", places.deps_prefix.as_str());
    vars.set("repo_root", host.repo_root.as_str());
    vars.set("sudo", sudo);
    vars
}

/// The variables of a build. Those of the recipe may build on the built-ins, and on
/// each other in order.
pub fn base_vars(
    recipe: &Recipe,
    resolved: &Resolved,
    opts: &Options,
    host: &Host,
    places: &Places,
) -> (result: Result<Vars, TemplateError>)
    ensures
        match with_recipe_vars(
            built_ins(*recipe, *resolved, *opts, *host, places@),
            crate::text_map::listing(recipe.vars@),
        ) {
            Ok(map) => result matches Ok(vars) && vars@ == map,
            Err((vars, text)) => result matches Err(error) && error.arises(vars, text),
        },
{
    let mut vars = set_built_ins(recipe, resolved, opts, host, places);
    let ghost start = vars@;
    let entries = recipe.vars.entries();
    let ghost list = crate::text_map::pairs(entries@);
    let mut i: usize = 0;
    assert(list.skip(0) =~= list);
    while i < entries.len()
        invariant
            i <= entries@.len(),
            start == built_ins(*recipe, *resolved, *opts, *host, places@),
            list == crate::text_map::pairs(entries@),
            list == crate::text_map::listing(recipe.vars@),
            with_recipe_vars(start, list) == with_recipe_vars(vars@, list.skip(i as int)),
        decreases entries@.len() - i,
    {
        let (key, value) = &entries[i];
        assert(list.skip(i as int)[0] == (key@, value@));
        assert(list.skip(i as int).drop_first() =~= list.skip(i + 1));
        match vars.expand(value.as_str()) {
            Ok(text) => {
                vars.set(key.as_str(), text.as_str());
            },
            Err(error) => {
                return Err(error);
            },
        }
        i += 1;
    }
    Ok(vars)
}

/// The environment of every step of a recipe.
pub fn environment(recipe: &Recipe, vars: &Vars) -> (result: Result<TextMap, TemplateError>)
    ensures
        match steps::layered(
            vars@,
            Map::<Seq<char>, Seq<char>>::empty(),
            crate::text_map::listing(recipe.env@),
        ) {
            Ok(map) => result matches Ok(env) && env@ == map,
            Err(text) => result matches Err(error) && error.arises(vars@, text),
        },
{
    layer(TextMap::new(), &recipe.env, vars)
}

// -- what a build works on ---------------------------------------------------

/// What a build works on.
#[derive(Debug)]
pub struct Setup {
    pub work: String,
    pub dist: String,
    pub src: String,
    /// The tree that is packaged, and the directory in it.
    pub stage: String,
    pub inner_dir: String,
    pub package: String,
    pub vars: Vars,
}

/// The model of `Setup`.
pub struct Arrangement {
    pub work: Seq<char>,
    pub dist: Seq<char>,
    pub src: Seq<char>,
    pub stage: Seq<char>,
    pub inner_dir: Seq<char>,
    pub package: Seq<char>,
    pub vars: Map<Seq<char>, Seq<char>>,
}

impl View for Setup {
    type V = Arrangement;

    open spec fn view(&self) -> Arrangement {
        Arrangement {
            work: self.work@,
            dist: self.dist@,
            src: self.src@,
            stage: self.stage@,
            inner_dir: self.inner_dir@,
            package: self.package@,
            vars: self.vars@,
        }
    }
}

/// The directory that a recipe's source is unpacked into.
pub open spec fn source_dir(recipe: Recipe) -> Seq<char> {
    match recipe.source {
        Some(source) => source.dir@,
        None => "src"@,
    }
}

/// Where the trees of a build lie.
pub open spec fn layout_of(recipe: Recipe, resolved: Resolved, opts: Options) -> Layout {
    let work = crate::path::joined(
        opts.work_dir@,
        recipe.name@ + "-"@ + resolved.bare@ + "-"@ + opts.arch@,
    );
    Layout {
        work,
        dist: opts.output@,
        src: crate::path::joined(work, source_dir(recipe)),
        deps_prefix: crate::path::joined(work, "deps-prefix"@),
    }
}

/// Where the trees of a build lie.
pub fn places_of(recipe: &Recipe, resolved: &Resolved, opts: &Options) -> (places: Places)
    ensures
        places@ == layout_of(*recipe, *resolved, *opts),
{
    let mut tree = recipe.name.clone();
    tree.append("-");
    tree.append(resolved.bare.as_str());
    tree.append("-");
    tree.append(opts.arch.as_str());
    let work = join_path(opts.work_dir.as_str(), tree.as_str());
    let dir = match &recipe.source {
        Some(source) => source.dir.as_str(),
        None => "src",
    };
    let src = join_path(work.as_str(), dir);
    let deps_prefix = join_path(work.as_str(), "deps-prefix");
    Places { work, dist: opts.output.clone(), src, deps_prefix }
}

/// What a build works on, once its variables are known. Where a name cannot be
/// expanded, it is the error.
pub open spec fn arrangement(
    recipe: Recipe,
    layout: Layout,
    vars: Map<Seq<char>, Seq<char>>,
) -> Result<Arrangement, Seq<char>> {
    match crate::template::expansion(vars, recipe.package.name@) {
        Err(_) => Err(recipe.package.name@),
        Ok(package) => {
            let inner = match recipe.package.inner_dir {
                Some(dir) => match crate::template::expansion(vars, dir@) {
                    Ok(dir) => Ok(dir),
                    Err(_) => Err(dir@),
                },
                None => Ok(package),
            };
            match inner {
                Err(text) => Err(text),
                Ok(inner_dir) => {
                    let stage = crate::path::joined(layout.work, "stage"@);
                    Ok(
                        Arrangement {
                            work: layout.work,
                            dist: layout.dist,
                            src: layout.src,
                            stage,
                            inner_dir,
                            package,
                            vars: vars.insert("package"@, package).insert(
                                "stage"@,
                                crate::path::joined(stage, inner_dir),
                            ),
                        },
                    )
                },
            }
        },
    }
}

/// What a build works on.
pub fn prepare(recipe: &Recipe, resolved: &Resolved, opts: &Options, host: &Host) -> (result:
    Result<Setup, BuildError>)
    ensures
        ({
            let layout = layout_of(*recipe, *resolved, *opts);
            match with_recipe_vars(
                built_ins(*recipe, *resolved, *opts, *host, layout),
                crate::text_map::listing(recipe.vars@),
            ) {
                Err((vars, text)) => result matches Err(BuildError::Template { error })
                    && error.arises(vars, text),
                Ok(vars) => match arrangement(*recipe, layout, vars) {
                    Err(text) => result matches Err(BuildError::Template { error })
                        && error.arises(vars, text),
                    Ok(model) => result matches Ok(setup) && setup@ == model,
                },
            }
        }),
{
    let places = places_of(recipe, resolved, opts);
    let mut vars = match base_vars(recipe, resolved, opts, host, &places) {
        Ok(vars) => vars,
        Err(error) => {
            return Err(BuildError::Template { error });
        },
    };
    let package = match vars.expand(recipe.package.name.as_str()) {
        Ok(package) => package,
        Err(error) => {
            return Err(BuildError::Template { error });
        },
    };
    let inner_dir = match &recipe.package.inner_dir {
        Some(dir) => match vars.expand(dir.as_str()) {
            Ok(dir) => dir,
            Err(error) => {
                return Err(BuildError::Template { error });
            },
        },
        None => package.clone(),
    };
    let stage = join_path(places.work.as_str(), "stage");
    let staged = join_path(stage.as_str(), inner_dir.as_str());
    vars.set("package", package.as_str());
    vars.set("stage", staged.as_str());
    Ok(
        Setup {
            work: places.work,
            dist: places.dist,
            src: places.src,
            stage,
            inner_dir,
            package,
            vars,
        },
    )
}

impl Setup {
    /// The artifact is unpacked in `extracted`.
    pub fn set_extracted(&mut self, extracted: &str)
        ensures
            final(self)@ == (Arrangement {
                vars: old(self)@.vars.insert("extracted"@, extracted@),
                ..old(self)@
            }),
    {
        self.vars.set("extracted", extracted);
    }

    /// The facts about a build that are shown at its start.
    pub fn facts(
        &self,
        recipe: &Recipe,
        resolved: &Resolved,
        opts: &Options,
        reporter: &Reporter,
    ) -> (lines: Vec<String>)
        ensures
            crate::text::texts(lines@) == seq![
                info_line(*reporter, "recipe"@, opts.recipe_path@),
                info_line(*reporter, "version"@, resolved.version@),
                info_line(*reporter, "target"@, "linux-"@ + opts.arch@),
                info_line(
                    *reporter,
                    "artifact"@,
                    steps::artifact_name(self.package@, recipe.package.format),
                ),
                info_line(*reporter, "work dir"@, self.work@),
            ],
    {
        let mut target = "linux-".to_owned();
        target.append(opts.arch.as_str());
        let artifact = write_artifact_name(self.package.as_str(), recipe.package.format);
        let mut lines: Vec<String> = Vec::new();
        lines.push(reporter.info("recipe", opts.recipe_path.as_str()));
        lines.push(reporter.info("version", resolved.version.as_str()));
        lines.push(reporter.info("target", target.as_str()));
        lines.push(reporter.info("artifact", artifact.as_str()));
        lines.push(reporter.info("work dir", self.work.as_str()));
        assert(crate::text::texts(lines@) =~= seq![
            info_line(*reporter, "recipe"@, opts.recipe_path@),
            info_line(*reporter, "version"@, resolved.version@),
            info_line(*reporter, "target"@, "linux-"@ + opts.arch@),
            info_line(
                *reporter,
                "artifact"@,
                steps::artifact_name(self.package@, recipe.package.format),
            ),
            info_line(*reporter, "work dir"@, self.work@),
        ]);
        lines
    }
}

/// A fact about a build.
pub open spec fn info_line(reporter: Reporter, label: Seq<char>, value: Seq<char>) -> Seq<char> {
    "  "@ + crate::ui::brand::painted(
        reporter.palette.enabled,
        Tint::Plain(crate::ui::brand::GREY),
        crate::number::padded_left(label, 10),
    ) + " "@ + value
}

// -- the order of a build ----------------------------------------------------

/// A part of a build.
#[derive(Debug, Clone, Copy, PartialEq, Eq, Structural)]
pub enum Phase {
    /// Packages are installed.
    Dependencies,
    /// A step that installs what is not packaged.
    Extra(usize),
    /// The source is downloaded and unpacked.
    Source,
    /// A step of the build itself.
    Build(usize),
    /// The build tree is verified, before spending time on packaging.
    VerifyBuild,
    /// A step that populates the tree to package.
    Package(usize),
    /// The tree to package is verified.
    VerifyPackaged,
    /// The libraries that it needs are verified.
    VerifyLinks,
    /// The artifact is created.
    Archive,
    /// The artifact is unpacked in a prefix that it was never built in.
    Extract,
    /// A smoke test of the artifact.
    Smoke(usize),
}

/// The parts of a build that stands on as many steps as the recipe has.
pub open spec fn phases(
    extra: nat,
    build: nat,
    package: nat,
    smoke: nat,
    skip_dependencies: bool,
) -> Seq<Phase> {
    (if skip_dependencies {
        seq![]
    } else {
        seq![Phase::Dependencies]
    }) + Seq::new(extra, |i: int| Phase::Extra(i as usize)) + seq![Phase::Source] + Seq::new(
        build,
        |i: int| Phase::Build(i as usize),
    ) + seq![Phase::VerifyBuild] + Seq::new(package, |i: int| Phase::Package(i as usize)) + seq![
        Phase::VerifyPackaged,
        Phase::VerifyLinks,
        Phase::Archive,
    ] + (if smoke == 0 {
        seq![]
    } else {
        seq![Phase::Extract] + Seq::new(smoke, |i: int| Phase::Smoke(i as usize))
    })
}

/// The parts of a recipe's build, in their order.
pub open spec fn phases_of(recipe: Recipe, skip_dependencies: bool) -> Seq<Phase> {
    phases(
        recipe.dependencies.extra@.len(),
        recipe.build@.len(),
        recipe.package.steps@.len(),
        recipe.verify.smoke@.len(),
        skip_dependencies,
    )
}

/// The parts of a recipe's build, in their order. Each is begun only after the one
/// before it has worked.
pub fn pipeline(recipe: &Recipe, opts: &Options) -> (list: Vec<Phase>)
    ensures
        list@ == phases_of(*recipe, opts.skip_dependencies),
{
    let mut list: Vec<Phase> = Vec::new();
    if !opts.skip_dependencies {
        list.push(Phase::Dependencies);
    }
    let ghost start = list@;
    let extra = recipe.dependencies.extra.len();
    for i in 0..extra
        invariant
            list@ =~= start + Seq::new(i as nat, |i: int| Phase::Extra(i as usize)),
    {
        list.push(Phase::Extra(i));
    }
    list.push(Phase::Source);
    let ghost start = list@;
    let build = recipe.build.len();
    for i in 0..build
        invariant
            list@ =~= start + Seq::new(i as nat, |i: int| Phase::Build(i as usize)),
    {
        list.push(Phase::Build(i));
    }
    list.push(Phase::VerifyBuild);
    let ghost start = list@;
    let package = recipe.package.steps.len();
    for i in 0..package
        invariant
            list@ =~= start + Seq::new(i as nat, |i: int| Phase::Package(i as usize)),
    {
        list.push(Phase::Package(i));
    }
    list.push(Phase::VerifyPackaged);
    list.push(Phase::VerifyLinks);
    list.push(Phase::Archive);
    let smoke = recipe.verify.smoke.len();
    if smoke > 0 {
        list.push(Phase::Extract);
        let ghost start = list@;
        for i in 0..smoke
            invariant
                list@ =~= start + Seq::new(i as nat, |i: int| Phase::Smoke(i as usize)),
        {
            list.push(Phase::Smoke(i));
        }
    }
    assert(list@ =~= phases_of(*recipe, opts.skip_dependencies));
    list
}

/// The step of the recipe that a part of its build is, where it is one.
pub open spec fn step_of(recipe: Recipe, phase: Phase) -> Option<Step> {
    match phase {
        Phase::Extra(i) => if i < recipe.dependencies.extra@.len() {
            Some(recipe.dependencies.extra@[i as int])
        } else {
            None
        },
        Phase::Build(i) => if i < recipe.build@.len() {
            Some(recipe.build@[i as int])
        } else {
            None
        },
        Phase::Package(i) => if i < recipe.package.steps@.len() {
            Some(recipe.package.steps@[i as int])
        } else {
            None
        },
        Phase::Smoke(i) => if i < recipe.verify.smoke@.len() {
            Some(recipe.verify.smoke@[i as int])
        } else {
            None
        },
        _ => None,
    }
}

/// The step of the recipe that a part of its build is, where it is one.
pub fn recipe_step(recipe: &Recipe, phase: Phase) -> (step: Option<&Step>)
    ensures
        match step_of(*recipe, phase) {
            Some(expected) => step matches Some(found) && *found == expected,
            None => step is None,
        },
{
    let (list, at) = match phase {
        Phase::Extra(i) => (&recipe.dependencies.extra, i),
        Phase::Build(i) => (&recipe.build, i),
        Phase::Package(i) => (&recipe.package.steps, i),
        Phase::Smoke(i) => (&recipe.verify.smoke, i),
        _ => {
            return None;
        },
    };
    if at < list.len() {
        Some(&list[at])
    } else {
        None
    }
}

// -- the plan ----------------------------------------------------------------

/// The names of some steps.
pub open spec fn step_names(steps: Seq<Step>) -> Seq<Seq<char>> {
    steps.map_values(|step: Step| step.name@)
}

/// The names of those steps that are run.
pub open spec fn enabled_names(steps: Seq<Step>, with: Seq<Seq<char>>) -> Seq<Seq<char>> {
    step_names(steps.filter(|step: Step| steps::is_enabled(step, with)))
}

/// What a build is going to do.
pub open spec fn plan_names(recipe: Recipe, opts: Options) -> Seq<Seq<char>> {
    let with = crate::text::texts(opts.with@);
    (if opts.skip_dependencies {
        seq![]
    } else {
        seq!["Install build dependencies"@]
    }) + step_names(recipe.dependencies.extra@) + (if recipe.source is Some {
        seq!["Download source"@]
    } else {
        seq![]
    }) + enabled_names(recipe.build@, with) + seq!["Verify PIE"@] + enabled_names(
        recipe.package.steps@,
        with,
    ) + seq!["Create archive"@] + step_names(recipe.verify.smoke@)
}

/// A line of a plan.
pub open spec fn plan_line(at: int, name: Seq<char>) -> Seq<char> {
    "  "@ + crate::number::padded_left(crate::number::decimal((at + 1) as nat), 3) + ". "@ + name
}

/// Adds the names of some steps to a plan, all of them or those that are run.
fn add_steps(names: &mut Vec<String>, list: &Vec<Step>)
    ensures
        crate::text::texts(final(names)@) == crate::text::texts(old(names)@) + step_names(list@),
{
    let ghost start = crate::text::texts(names@);
    let mut i: usize = 0;
    assert(start + step_names(list@.take(0)) =~= start);
    while i < list.len()
        invariant
            i <= list@.len(),
            crate::text::texts(names@) == start + step_names(list@.take(i as int)),
        decreases list@.len() - i,
    {
        let ghost before = crate::text::texts(names@);
        let ghost name = list@[i as int].name@;
        names.push(list[i].name.clone());
        assert(crate::text::texts(names@) =~= before.push(name));
        assert(list@.take(i + 1) =~= list@.take(i as int).push(list@[i as int]));
        i += 1;
        assert(crate::text::texts(names@) =~= start + step_names(list@.take(i as int)));
    }
    assert(list@.take(i as int) =~= list@);
}

/// Adds the names of those steps that are run to a plan.
fn add_enabled_steps(names: &mut Vec<String>, list: &Vec<Step>, with: &[String])
    ensures
        crate::text::texts(final(names)@) == crate::text::texts(old(names)@) + enabled_names(
            list@,
            crate::text::texts(with@),
        ),
{
    let ghost start = crate::text::texts(names@);
    let ghost options = crate::text::texts(with@);
    let ghost pred = |step: Step| steps::is_enabled(step, options);
    let mut i: usize = 0;
    reveal(Seq::filter);
    assert(start + enabled_names(list@.take(0), options) =~= start);
    while i < list.len()
        invariant
            i <= list@.len(),
            options == crate::text::texts(with@),
            pred == (|step: Step| steps::is_enabled(step, options)),
            crate::text::texts(names@) == start + enabled_names(list@.take(i as int), options),
        decreases list@.len() - i,
    {
        let ghost before = crate::text::texts(names@);
        let ghost step = list@[i as int];
        reveal(Seq::filter);
        assert(list@.take(i + 1).drop_last() =~= list@.take(i as int));
        let ghost kept = list@.take(i as int).filter(pred);
        if step_enabled(&list[i], with) {
            names.push(list[i].name.clone());
            assert(crate::text::texts(names@) =~= before.push(step.name@));
            assert(list@.take(i + 1).filter(pred) == kept.push(step));
            assert(step_names(kept.push(step)) =~= step_names(kept).push(step.name@));
        }
        i += 1;
        assert(crate::text::texts(names@) =~= start + enabled_names(
            list@.take(i as int),
            options,
        ));
    }
    assert(list@.take(i as int) =~= list@);
}

/// What a build is going to do.
pub fn plan(recipe: &Recipe, opts: &Options) -> (names: Vec<String>)
    ensures
        crate::text::texts(names@) == plan_names(*recipe, *opts),
{
    let mut names: Vec<String> = Vec::new();
    if !opts.skip_dependencies {
        names.push("Install build dependencies".to_owned());
    }
    assert(crate::text::texts(names@) =~= if opts.skip_dependencies {
        seq![]
    } else {
        seq!["Install build dependencies"@]
    });
    add_steps(&mut names, &recipe.dependencies.extra);
    let ghost before = crate::text::texts(names@);
    if recipe.source.is_some() {
        names.push("Download source".to_owned());
        assert(crate::text::texts(names@) =~= before + seq!["Download source"@]);
    } else {
        assert(before =~= before + Seq::<Seq<char>>::empty());
    }
    add_enabled_steps(&mut names, &recipe.build, &opts.with);
    let ghost before = crate::text::texts(names@);
    names.push("Verify PIE".to_owned());
    assert(crate::text::texts(names@) =~= before + seq!["Verify PIE"@]);
    add_enabled_steps(&mut names, &recipe.package.steps, &opts.with);
    let ghost before = crate::text::texts(names@);
    names.push("Create archive".to_owned());
    assert(crate::text::texts(names@) =~= before + seq!["Create archive"@]);
    add_steps(&mut names, &recipe.verify.smoke);
    names
}

/// What is shown in place of a build.
#[derive(Debug)]
pub struct Preview {
    pub lines: Vec<String>,
    /// Why the address of the source cannot be shown, where it cannot.
    pub error: Option<TemplateError>,
}

/// The lines of a plan, under their heading.
pub open spec fn plan_lines(enabled: bool, names: Seq<Seq<char>>) -> Seq<Seq<char>> {
    seq!["  "@ + crate::ui::brand::painted(enabled, Tint::BoldCyan, "plan"@)] + Seq::new(
        names.len(),
        |i: int| plan_line(i, names[i]),
    ) + seq!["\n  "@ + crate::ui::brand::painted(enabled, Tint::BoldCyan, "source"@)]
}

/// Shows what a build is going to do, in place of the build.
pub fn dry_run(recipe: &Recipe, vars: &Vars, opts: &Options, reporter: &Reporter) -> (preview:
    Preview)
    ensures
        ({
            let lines = plan_lines(reporter.palette.enabled, plan_names(*recipe, *opts));
            match recipe.source {
                None => preview.error is None && crate::text::texts(preview.lines@) == lines + seq![
                    "  (fetched by the recipe's own build steps)"@,
                    ""@,
                ],
                Some(source) => match crate::template::expansion(vars@, source.url@) {
                    Ok(url) => preview.error is None && crate::text::texts(preview.lines@) == lines
                        + seq!["  "@ + url, ""@],
                    Err(_) => crate::text::texts(preview.lines@) == lines && (
                    preview.error matches Some(error) && error.arises(vars@, source.url@)),
                },
            }
        }),
{
    let names = plan(recipe, opts);
    let ghost all = plan_names(*recipe, *opts);
    let mut heading = "  ".to_owned();
    heading.append(reporter.palette.paint(Tint::BoldCyan, "plan").as_str());
    let ghost first = heading@;
    let mut lines: Vec<String> = Vec::new();
    lines.push(heading);
    let mut i: usize = 0;
    assert(crate::text::texts(lines@) =~= seq![first] + Seq::new(
        0,
        |k: int| plan_line(k, all[k]),
    ));
    while i < names.len()
        invariant
            i <= names@.len(),
            all == crate::text::texts(names@),
            crate::text::texts(lines@) == seq![first] + Seq::new(
                i as nat,
                |k: int| plan_line(k, all[k]),
            ),
        decreases names@.len() - i,
    {
        let ghost before = crate::text::texts(lines@);
        let mut line = "  ".to_owned();
        line.append(pad_left(write_decimal(i as u64 + 1).as_str(), 3).as_str());
        line.append(". ");
        line.append(names[i].as_str());
        assert(line@ == plan_line(i as int, all[i as int]));
        let ghost shown = line@;
        lines.push(line);
        assert(crate::text::texts(lines@) =~= before.push(shown));
        i += 1;
        assert(crate::text::texts(lines@) =~= seq![first] + Seq::new(
            i as nat,
            |k: int| plan_line(k, all[k]),
        ));
    }
    let ghost before = crate::text::texts(lines@);
    let mut heading = "\n  ".to_owned();
    heading.append(reporter.palette.paint(Tint::BoldCyan, "source").as_str());
    let ghost shown = heading@;
    lines.push(heading);
    assert(crate::text::texts(lines@) =~= before.push(shown));
    assert(crate::text::texts(lines@) =~= plan_lines(reporter.palette.enabled, all));
    let ghost before = crate::text::texts(lines@);
    let mut line = "  ".to_owned();
    match &recipe.source {
        Some(source) => match vars.expand(source.url.as_str()) {
            Ok(url) => {
                line.append(url.as_str());
            },
            Err(error) => {
                return Preview { lines, error: Some(error) };
            },
        },
        None => {
            line = "  (fetched by the recipe's own build steps)".to_owned();
        },
    }
    let ghost shown = line@;
    lines.push(line);
    lines.push("".to_owned());
    assert(crate::text::texts(lines@) =~= before + seq![shown, ""@]);
    Preview { lines, error: None }
}

// -- reports -----------------------------------------------------------------

/// The heading of a build.
pub fn heading(recipe: &Recipe, reporter: &Reporter) -> (text: String)
    ensures
        text@ == "\n"@ + crate::ui::pair_line(
            reporter.palette,
            (Tint::Bold(crate::ui::brand::PINK), "pie · "@ + recipe.heading()),
            (
                Tint::Plain(crate::ui::brand::GREY),
                match recipe.description {
                    Some(description) => description@,
                    None => ""@,
                },
            ),
        ),
{
    let mut left = "pie · ".to_owned();
    left.append(recipe.title());
    let right = match &recipe.description {
        Some(description) => description.as_str(),
        None => "",
    };
    reporter.heading(left.as_str(), right)
}

/// What is shown at the end of a build that worked, before the notes of its recipe.
pub fn summary(
    recipe: &Recipe,
    version: &str,
    archive: &str,
    elapsed: Elapsed,
    size: u64,
    reporter: &Reporter,
) -> (lines: Vec<String>)
    requires
        elapsed.wf(),
    ensures
        crate::text::texts(lines@) == seq![
            "\n"@ + crate::ui::pair_line(
                reporter.palette,
                (Tint::Bold(crate::ui::brand::TEAL), "✔"@),
                (
                    Tint::Bold(crate::ui::brand::PINK),
                    recipe.heading() + " "@ + version@ + " built in "@
                        + crate::ui::measure::duration_text(elapsed),
                ),
            ) + "\n"@,
            "  "@ + archive@ + " ("@ + crate::ui::measure::bytes_text(size as nat) + ")"@,
            "  "@ + archive@ + ".sha256\n"@,
        ],
{
    let mut message = recipe.title().to_owned();
    message.append(" ");
    message.append(version);
    message.append(" built in ");
    message.append(format_duration(elapsed).as_str());
    let first = reporter.success(message.as_str());
    let mut second = "  ".to_owned();
    second.append(archive);
    second.append(" (");
    second.append(format_bytes(size).as_str());
    second.append(")");
    let mut third = "  ".to_owned();
    third.append(archive);
    third.append(".sha256\n");
    let ghost shown = seq![first@, second@, third@];
    let mut lines: Vec<String> = Vec::new();
    lines.push(first);
    lines.push(second);
    lines.push(third);
    assert(crate::text::texts(lines@) =~= shown);
    lines
}

// -- laws --------------------------------------------------------------------

/// A variable that is set later in the pipeline.
pub open spec fn is_deferred(name: Seq<char>) -> bool {
    name == "package"@ || name == "stage"@ || name == "extracted"@
}

/// A variable that a recipe may use.
pub open spec fn is_declared(name: Seq<char>) -> bool {
    exists|i: int| 0 <= i < TEMPLATE_VARIABLES@.len() && #[trigger] TEMPLATE_VARIABLES@[i]@ == name
}

/// The variables declared and the ones set agree: every one of them that is not set
/// later is built in, and none is built in that is not declared.
pub proof fn law_declared_variables_are_provided(
    recipe: Recipe,
    resolved: Resolved,
    opts: Options,
    host: Host,
    layout: Layout,
    name: Seq<char>,
)
    ensures
        is_declared(name) && !is_deferred(name) ==> built_ins(
            recipe,
            resolved,
            opts,
            host,
            layout,
        ).contains_key(name),
        built_ins(recipe, resolved, opts, host, layout).contains_key(name) ==> is_declared(name),
{
    assert(TEMPLATE_VARIABLES@[0]@ == "name"@);
    assert(TEMPLATE_VARIABLES@[1]@ == "version"@);
    assert(TEMPLATE_VARIABLES@[2]@ == "version_bare"@);
    assert(TEMPLATE_VARIABLES@[3]@ == "version_major"@);
    assert(TEMPLATE_VARIABLES@[4]@ == "version_minor"@);
    assert(TEMPLATE_VARIABLES@[5]@ == "version_xy"@);
    assert(TEMPLATE_VARIABLES@[6]@ == "upstream_tag"@);
    assert(TEMPLATE_VARIABLES@[7]@ == "os"@);
    assert(TEMPLATE_VARIABLES@[8]@ == "arch"@);
    assert(TEMPLATE_VARIABLES@[9]@ == "arch_gnu"@);
    assert(TEMPLATE_VARIABLES@[10]@ == "nproc"@);
    assert(TEMPLATE_VARIABLES@[11]@ == "workdir"@);
    assert(TEMPLATE_VARIABLES@[12]@ == "srcdir"@);
    assert(TEMPLATE_VARIABLES@[13]@ == "dist"@);
    assert(TEMPLATE_VARIABLES@[14]@ == "deps_prefix"@);
    assert(TEMPLATE_VARIABLES@[15]@ == "repo_root"@);
    assert(TEMPLATE_VARIABLES@[16]@ == "sudo"@);
    assert(TEMPLATE_VARIABLES@[17]@ == "package"@);
    assert(TEMPLATE_VARIABLES@[18]@ == "stage"@);
    assert(TEMPLATE_VARIABLES@[19]@ == "extracted"@);
    assert(TEMPLATE_VARIABLES@.len() == 20);
}

/// A recipe adds the variables that it declares to those built in, and no others.
pub proof fn law_recipe_variables_are_added(
    vars: Map<Seq<char>, Seq<char>>,
    list: Seq<(Seq<char>, Seq<char>)>,
    name: Seq<char>,
)
    requires
        with_recipe_vars(vars, list) is Ok,
    ensures
        with_recipe_vars(vars, list)->Ok_0.contains_key(name) <==> vars.contains_key(name)
            || crate::text_map::keys_of(list).contains(name),
    decreases list.len(),
{
    let keys = crate::text_map::keys_of(list);
    if list.len() > 0 {
        let value = crate::template::expansion(vars, list[0].1)->Ok_0;
        let rest = list.drop_first();
        let rest_keys = crate::text_map::keys_of(rest);
        law_recipe_variables_are_added(vars.insert(list[0].0, value), rest, name);
        if rest_keys.contains(name) {
            let i = choose|i: int| 0 <= i < rest_keys.len() && rest_keys[i] == name;
            assert(keys[i + 1] == name);
        }
        assert(keys[0] == list[0].0);
        if keys.contains(name) && name != list[0].0 {
            let i = choose|i: int| 0 <= i < keys.len() && keys[i] == name;
            assert(rest_keys[i - 1] == name);
        }
    }
}

/// A recipe's variable can build on the built-ins and on those before it: the first
/// is expanded with the built-ins alone.
pub proof fn law_recipe_variables_build_on_each_other(
    vars: Map<Seq<char>, Seq<char>>,
    first: Seq<(Seq<char>, Seq<char>)>,
    then_on: Seq<(Seq<char>, Seq<char>)>,
)
    requires
        with_recipe_vars(vars, first) is Ok,
    ensures
        with_recipe_vars(vars, first + then_on) == with_recipe_vars(
            with_recipe_vars(vars, first)->Ok_0,
            then_on,
        ),
    decreases first.len(),
{
    if first.len() == 0 {
        assert(first + then_on =~= then_on);
    } else {
        let value = crate::template::expansion(vars, first[0].1)->Ok_0;
        assert((first + then_on).drop_first() =~= first.drop_first() + then_on);
        law_recipe_variables_build_on_each_other(
            vars.insert(first[0].0, value),
            first.drop_first(),
            then_on,
        );
    }
}

impl Phase {
    /// The place of a part in the order of a build.
    pub open spec fn place(self) -> int {
        match self {
            Phase::Dependencies => 0,
            Phase::Extra(_) => 1,
            Phase::Source => 2,
            Phase::Build(_) => 3,
            Phase::VerifyBuild => 4,
            Phase::Package(_) => 5,
            Phase::VerifyPackaged => 6,
            Phase::VerifyLinks => 7,
            Phase::Archive => 8,
            Phase::Extract => 9,
            Phase::Smoke(_) => 10,
        }
    }

    /// The place of a step among those of its kind.
    pub open spec fn turn(self) -> int {
        match self {
            Phase::Extra(i) => i as int,
            Phase::Build(i) => i as int,
            Phase::Package(i) => i as int,
            Phase::Smoke(i) => i as int,
            _ => 0,
        }
    }

    /// This part comes before the other.
    pub open spec fn before(self, other: Phase) -> bool {
        self.place() < other.place() || (self.place() == other.place() && self.turn()
            < other.turn())
    }
}

/// Each part comes before those after it.
pub open spec fn in_order(list: Seq<Phase>) -> bool {
    forall|i: int, j: int|
        0 <= i < j < list.len() ==> (#[trigger] list[i]).before(#[trigger] list[j])
}

/// The parts stand in order, and in places from `low` to `high`.
spec fn in_order_between(list: Seq<Phase>, low: int, high: int) -> bool {
    &&& in_order(list)
    &&& forall|i: int| 0 <= i < list.len() ==> low <= (#[trigger] list[i]).place() <= high
}

proof fn lemma_in_order_joined(a: Seq<Phase>, b: Seq<Phase>, low: int, mid: int, high: int)
    requires
        in_order_between(a, low, mid),
        in_order_between(b, mid + 1, high),
        low <= mid < high,
    ensures
        in_order_between(a + b, low, high),
{
    let whole = a + b;
    assert forall|i: int, j: int| 0 <= i < j < whole.len() implies (#[trigger] whole[i]).before(
        #[trigger] whole[j],
    ) by {
        if j < a.len() {
            assert(whole[i] == a[i] && whole[j] == a[j]);
        } else if i < a.len() {
            assert(whole[i] == a[i] && whole[j] == b[j - a.len()]);
        } else {
            assert(whole[i] == b[i - a.len()] && whole[j] == b[j - a.len()]);
        }
    }
}

/// The parts of a build come in their order: dependencies, source, build, the
/// verification of the build tree, packaging, the verification of what is packaged,
/// the archive, and smoke tests of it.
pub proof fn law_phases_are_in_order(recipe: Recipe, skip_dependencies: bool)
    ensures
        in_order(phases_of(recipe, skip_dependencies)),
{
    let extra = recipe.dependencies.extra.len();
    let build = recipe.build.len();
    let package = recipe.package.steps.len();
    let smoke = recipe.verify.smoke.len();
    let s0 = if skip_dependencies {
        Seq::<Phase>::empty()
    } else {
        seq![Phase::Dependencies]
    };
    let s1 = s0 + Seq::new(extra as nat, |i: int| Phase::Extra(i as usize));
    lemma_in_order_joined(
        s0,
        Seq::new(extra as nat, |i: int| Phase::Extra(i as usize)),
        0,
        0,
        1,
    );
    let s2 = s1 + seq![Phase::Source];
    lemma_in_order_joined(s1, seq![Phase::Source], 0, 1, 2);
    let s3 = s2 + Seq::new(build as nat, |i: int| Phase::Build(i as usize));
    lemma_in_order_joined(
        s2,
        Seq::new(build as nat, |i: int| Phase::Build(i as usize)),
        0,
        2,
        3,
    );
    let s4 = s3 + seq![Phase::VerifyBuild];
    lemma_in_order_joined(s3, seq![Phase::VerifyBuild], 0, 3, 4);
    let s5 = s4 + Seq::new(package as nat, |i: int| Phase::Package(i as usize));
    lemma_in_order_joined(
        s4,
        Seq::new(package as nat, |i: int| Phase::Package(i as usize)),
        0,
        4,
        5,
    );
    let checks = seq![Phase::VerifyPackaged, Phase::VerifyLinks, Phase::Archive];
    let s6 = s5 + checks;
    lemma_in_order_joined(s5, checks, 0, 5, 8);
    let steps = Seq::new(smoke as nat, |i: int| Phase::Smoke(i as usize));
    lemma_in_order_joined(seq![Phase::Extract], steps, 9, 9, 10);
    let tests = if smoke == 0 {
        Seq::<Phase>::empty()
    } else {
        seq![Phase::Extract] + steps
    };
    lemma_in_order_joined(s6, tests, 0, 8, 10);
    assert(phases_of(recipe, skip_dependencies) =~= s6 + tests);
}

/// Whatever the recipe and the options, both trees are verified before an archive is
/// made.
pub proof fn law_nothing_is_packaged_unverified(recipe: Recipe, skip_dependencies: bool)
    ensures
        ({
            let list = phases_of(recipe, skip_dependencies);
            exists|built: int, packaged: int|
                #![trigger list[built], list[packaged]]
                0 <= built < packaged && packaged + 2 < list.len() && list[built]
                    == Phase::VerifyBuild && list[packaged] == Phase::VerifyPackaged
                    && list[packaged + 1] == Phase::VerifyLinks && list[packaged + 2]
                    == Phase::Archive
        }),
{
    let list = phases_of(recipe, skip_dependencies);
    let first: int = if skip_dependencies {
        0
    } else {
        1
    };
    let built = first + recipe.dependencies.extra@.len() + 1 + recipe.build@.len();
    let packaged = built + 1 + recipe.package.steps@.len();
    assert(list[built] == Phase::VerifyBuild);
    assert(list[packaged] == Phase::VerifyPackaged);
    assert(list[packaged + 1] == Phase::VerifyLinks);
    assert(list[packaged + 2] == Phase::Archive);
}

/// Picking gives all steps of a list whose parts stand for them.
proof fn lemma_steps_picked(
    list: Seq<Phase>,
    steps: Seq<Step>,
    pick: spec_fn(Phase) -> Option<Step>,
)
    requires
        list.len() == steps.len(),
        forall|i: int| 0 <= i < list.len() ==> pick(#[trigger] list[i]) == Some(steps[i]),
    ensures
        list.filter_map(pick) == steps,
    decreases list.len(),
{
    reveal(Seq::filter_map);
    if list.len() > 0 {
        let front = list.drop_last();
        assert forall|i: int| 0 <= i < front.len() implies pick(#[trigger] front[i]) == Some(
            steps.drop_last()[i],
        ) by {
            assert(front[i] == list[i]);
        }
        lemma_steps_picked(front, steps.drop_last(), pick);
        list.lemma_filter_map_take_succ(pick, list.len() - 1);
        assert(list.take(list.len() - 1) =~= front);
        assert(list.take(list.len() as int) =~= list);
        assert(pick(list[list.len() - 1]) == Some(steps[steps.len() - 1]));
        assert(list.filter_map(pick) =~= steps);
    } else {
        assert(list.filter_map(pick) =~= steps);
    }
}

/// Picking gives nothing of parts that stand for no step.
proof fn lemma_no_steps_picked(list: Seq<Phase>, pick: spec_fn(Phase) -> Option<Step>)
    requires
        forall|i: int| 0 <= i < list.len() ==> pick(#[trigger] list[i]) is None,
    ensures
        list.filter_map(pick) == Seq::<Step>::empty(),
    decreases list.len(),
{
    reveal(Seq::filter_map);
    if list.len() > 0 {
        let front = list.drop_last();
        assert forall|i: int| 0 <= i < front.len() implies pick(#[trigger] front[i]) is None by {
            assert(front[i] == list[i]);
        }
        lemma_no_steps_picked(front, pick);
        list.lemma_filter_map_take_succ(pick, list.len() - 1);
        assert(list.take(list.len() - 1) =~= front);
        assert(list.take(list.len() as int) =~= list);
        assert(pick(list[list.len() - 1]) is None);
    }
}

/// Over the parts of a build in their order, the recipe steps that the parts stand for
/// are all the extra dependency steps, all the build steps, all the package steps and
/// all the smoke steps of the recipe, each exactly once and in turn.
pub proof fn law_every_step_has_its_turn(recipe: Recipe, skip_dependencies: bool)
    ensures
        phases_of(recipe, skip_dependencies).filter_map(|phase: Phase| step_of(recipe, phase))
            == recipe.dependencies.extra@ + recipe.build@ + recipe.package.steps@
            + recipe.verify.smoke@,
{
    let pick = |phase: Phase| step_of(recipe, phase);
    let extra = recipe.dependencies.extra.len();
    let build = recipe.build.len();
    let package = recipe.package.steps.len();
    let smoke = recipe.verify.smoke.len();
    let start = if skip_dependencies {
        Seq::<Phase>::empty()
    } else {
        seq![Phase::Dependencies]
    };
    let extras = Seq::new(extra as nat, |i: int| Phase::Extra(i as usize));
    let source = seq![Phase::Source];
    let builds = Seq::new(build as nat, |i: int| Phase::Build(i as usize));
    let verified = seq![Phase::VerifyBuild];
    let packages = Seq::new(package as nat, |i: int| Phase::Package(i as usize));
    let checks = seq![Phase::VerifyPackaged, Phase::VerifyLinks, Phase::Archive];
    let extract = if smoke == 0 {
        Seq::<Phase>::empty()
    } else {
        seq![Phase::Extract]
    };
    let smokes = Seq::new(smoke as nat, |i: int| Phase::Smoke(i as usize));
    lemma_no_steps_picked(start, pick);
    lemma_steps_picked(extras, recipe.dependencies.extra@, pick);
    lemma_no_steps_picked(source, pick);
    lemma_steps_picked(builds, recipe.build@, pick);
    lemma_no_steps_picked(verified, pick);
    lemma_steps_picked(packages, recipe.package.steps@, pick);
    lemma_no_steps_picked(checks, pick);
    lemma_no_steps_picked(extract, pick);
    lemma_steps_picked(smokes, recipe.verify.smoke@, pick);
    let s1 = start + extras;
    let s2 = s1 + source;
    let s3 = s2 + builds;
    let s4 = s3 + verified;
    let s5 = s4 + packages;
    let s6 = s5 + checks;
    let s7 = s6 + extract;
    crate::text::lemma_filter_map_concat(start, extras, pick);
    crate::text::lemma_filter_map_concat(s1, source, pick);
    crate::text::lemma_filter_map_concat(s2, builds, pick);
    crate::text::lemma_filter_map_concat(s3, verified, pick);
    crate::text::lemma_filter_map_concat(s4, packages, pick);
    crate::text::lemma_filter_map_concat(s5, checks, pick);
    crate::text::lemma_filter_map_concat(s6, extract, pick);
    crate::text::lemma_filter_map_concat(s7, smokes, pick);
    assert(phases_of(recipe, skip_dependencies) =~= s7 + smokes);
    assert((s7 + smokes).filter_map(pick) =~= recipe.dependencies.extra@ + recipe.build@
        + recipe.package.steps@ + recipe.verify.smoke@);
}

/// Dependencies are installed unless they are skipped, the source is fetched, and
/// the artifact is unpacked exactly where there are smoke steps to run on it.
pub proof fn law_phases_depend_on_the_recipe(recipe: Recipe, skip_dependencies: bool)
    ensures
        phases_of(recipe, skip_dependencies).contains(Phase::Dependencies) <==> !skip_dependencies,
        phases_of(recipe, skip_dependencies).contains(Phase::Source),
        phases_of(recipe, skip_dependencies).contains(Phase::Extract) <==> recipe.verify.smoke@.len()
            > 0,
{
    let list = phases_of(recipe, skip_dependencies);
    let first: int = if skip_dependencies {
        0
    } else {
        1
    };
    let extra = recipe.dependencies.extra@.len();
    assert(list[first + extra] == Phase::Source);
    if !skip_dependencies {
        assert(list[0] == Phase::Dependencies);
    }
    if recipe.verify.smoke@.len() > 0 {
        let at = first + extra + 1 + recipe.build@.len() + 1 + recipe.package.steps@.len() + 3;
        assert(list[at] == Phase::Extract);
    }
}

/// The plan names what a build will do: every step that it is not without an option
/// for, in the order of the build.
pub proof fn law_plan_names_the_enabled_steps(recipe: Recipe, opts: Options)
    ensures
        ({
            let with = crate::text::texts(opts.with@);
            let runs = |step: Step| step.when matches Some(option) ==> with.contains(option@);
            let name = |step: Step| step.name@;
            plan_names(recipe, opts) == (if opts.skip_dependencies {
                Seq::<Seq<char>>::empty()
            } else {
                seq!["Install build dependencies"@]
            }) + recipe.dependencies.extra@.map_values(name) + (if recipe.source is Some {
                seq!["Download source"@]
            } else {
                Seq::<Seq<char>>::empty()
            }) + recipe.build@.filter(runs).map_values(name) + seq!["Verify PIE"@]
                + recipe.package.steps@.filter(runs).map_values(name) + seq!["Create archive"@]
                + recipe.verify.smoke@.map_values(name)
        }),
{
    let with = crate::text::texts(opts.with@);
    let runs = |step: Step| step.when matches Some(option) ==> with.contains(option@);
    let enabled = |step: Step| steps::is_enabled(step, with);
    let name = |step: Step| step.name@;
    assert(runs =~= enabled);
}

/// The parts of a version are what its dots part: the major and the minor part are
/// the first two, where there are so many.
pub proof fn law_version_parts_are_dotted(parts: Seq<Seq<char>>)
    requires
        parts.len() > 0,
        forall|i: int, j: int|
            0 <= i < parts.len() && 0 <= j < parts[i].len() ==> #[trigger] parts[i][j] != '.',
    ensures
        ({
            let bare = crate::text::join(parts, seq!['.']);
            &&& version_part(bare, 0) == parts[0]
            &&& version_part(bare, 1) == if parts.len() > 1 {
                parts[1]
            } else {
                Seq::empty()
            }
            &&& version_xy(bare) == if parts.len() > 1 {
                parts[0] + seq!['.'] + parts[1]
            } else {
                parts[0]
            }
        }),
{
    reveal_strlit(".");
    reveal_strlit("");
    assert("."@ =~= seq!['.']);
    assert(""@ =~= Seq::<char>::empty());
    crate::text::lemma_split_join(parts, '.');
    if parts.len() == 1 {
        assert(crate::text::join(parts, seq!['.']) == parts[0]);
    }
}

/// What the variables that a build begins with stand for.
pub proof fn law_built_in_variables_stand_for_their_names(
    recipe: Recipe,
    resolved: Resolved,
    opts: Options,
    host: Host,
    layout: Layout,
)
    ensures
        ({
            let vars = built_ins(recipe, resolved, opts, host, layout);
            &&& vars["name"@] == recipe.name@
            &&& vars["version"@] == resolved.version@
            &&& vars["version_bare"@] == resolved.bare@
            &&& vars["version_major"@] == version_part(resolved.bare@, 0)
            &&& vars["version_minor"@] == version_part(resolved.bare@, 1)
            &&& vars["version_xy"@] == version_xy(resolved.bare@)
            &&& resolved.upstream_tag matches Some(tag) ==> vars["upstream_tag"@] == tag@
            &&& resolved.upstream_tag is None ==> vars["upstream_tag"@].len() == 0
            &&& vars["os"@] == "linux"@
            &&& vars["arch"@] == opts.arch@
            &&& vars["nproc"@] == crate::number::decimal(host.nproc as nat)
            &&& vars["workdir"@] == layout.work
            &&& vars["srcdir"@] == layout.src
            &&& vars["dist"@] == layout.dist
            &&& vars["deps_prefix"@] == layout.deps_prefix
            &&& vars["repo_root"@] == host.repo_root@
            &&& host.root ==> vars["sudo"@].len() == 0
            &&& !host.root ==> vars["sudo"@] == "sudo "@
            &&& opts.arch@ == "arm64"@ || opts.arch@ == "aarch64"@ ==> vars["arch_gnu"@]
                == "aarch64"@
            &&& opts.arch@ != "arm64"@ && opts.arch@ != "aarch64"@ ==> vars["arch_gnu"@]
                == "x86_64"@
        }),
{
    reveal_strlit("");
    reveal_strlit("name");
    reveal_strlit("version");
    reveal_strlit("version_bare");
    reveal_strlit("version_major");
    reveal_strlit("version_minor");
    reveal_strlit("version_xy");
    reveal_strlit("upstream_tag");
    reveal_strlit("os");
    reveal_strlit("arch");
    reveal_strlit("arch_gnu");
    reveal_strlit("nproc");
    reveal_strlit("workdir");
    reveal_strlit("srcdir");
    reveal_strlit("dist");
    reveal_strlit("deps_prefix");
    reveal_strlit("repo_root");
    reveal_strlit("sudo");
    assert("name"@.len() == 4);
    assert("version"@.len() == 7);
    assert("version_bare"@.len() == 12);
    assert("version_major"@.len() == 13);
    assert("version_minor"@.len() == 13);
    assert("version_xy"@.len() == 10);
    assert("upstream_tag"@.len() == 12);
    assert("os"@.len() == 2);
    assert("arch"@.len() == 4);
    assert("arch_gnu"@.len() == 8);
    assert("nproc"@.len() == 5);
    assert("workdir"@.len() == 7);
    assert("srcdir"@.len() == 6);
    assert("dist"@.len() == 4);
    assert("deps_prefix"@.len() == 11);
    assert("repo_root"@.len() == 9);
    assert("sudo"@.len() == 4);
    assert("version_major"@[9] == 'a' && "version_minor"@[9] == 'i');
    assert("name"@[0] == 'n' && "arch"@[0] == 'a' && "dist"@[0] == 'd' && "sudo"@[0] == 's');
    assert("version"@[0] == 'v' && "workdir"@[0] == 'w');
    assert("upstream_tag"@[0] == 'u' && "version_bare"@[0] == 'v');
}

/// A variable of a recipe stands for its expansion with the variables before it, and
/// takes the place of one of the same name; it is refused where it has no expansion.
pub proof fn law_recipe_variables_are_expanded(
    vars: Map<Seq<char>, Seq<char>>,
    name: Seq<char>,
    text: Seq<char>,
)
    ensures
        with_recipe_vars(vars, Seq::empty()) == Ok::<
            Map<Seq<char>, Seq<char>>,
            (Map<Seq<char>, Seq<char>>, Seq<char>),
        >(vars),
        match crate::template::expansion(vars, text) {
            Ok(value) => with_recipe_vars(vars, seq![(name, text)]) == Ok::<
                Map<Seq<char>, Seq<char>>,
                (Map<Seq<char>, Seq<char>>, Seq<char>),
            >(vars.insert(name, value)),
            Err(_) => with_recipe_vars(vars, seq![(name, text)]) is Err,
        },
{
    assert(seq![(name, text)].drop_first() =~= Seq::empty());
    if let Ok(value) = crate::template::expansion(vars, text) {
        assert(with_recipe_vars(vars.insert(name, value), Seq::empty()) == Ok::<
            Map<Seq<char>, Seq<char>>,
            (Map<Seq<char>, Seq<char>>, Seq<char>),
        >(vars.insert(name, value)));
    }
}

/// Where a build works: in a directory of its own for the recipe, the version and the
/// architecture, with the source and the dependencies inside.
pub proof fn law_builds_work_in_their_own_directory(
    recipe: Recipe,
    resolved: Resolved,
    opts: Options,
)
    ensures
        ({
            let layout = layout_of(recipe, resolved, opts);
            &&& layout.work == crate::path::joined(
                opts.work_dir@,
                recipe.name@ + seq!['-'] + resolved.bare@ + seq!['-'] + opts.arch@,
            )
            &&& layout.dist == opts.output@
            &&& recipe.source matches Some(source) ==> layout.src == crate::path::joined(
                layout.work,
                source.dir@,
            )
            &&& recipe.source is None ==> layout.src == crate::path::joined(layout.work, "src"@)
            &&& layout.deps_prefix == crate::path::joined(layout.work, "deps-prefix"@)
        }),
{
    reveal_strlit("-");
    assert("-"@ =~= seq!['-']);
}

/// What is packaged, under which name and from where: the expansions of what the
/// recipe says. The directory in the archive is named like the package where the
/// recipe says nothing of it. Only a template without an expansion is refused.
pub proof fn law_packages_are_named_by_the_recipe(
    recipe: Recipe,
    layout: Layout,
    vars: Map<Seq<char>, Seq<char>>,
)
    ensures
        match arrangement(recipe, layout, vars) {
            Ok(arranged) => {
                &&& crate::template::expansion(vars, recipe.package.name@) == Ok::<
                    Seq<char>,
                    crate::template::Flaw,
                >(arranged.package)
                &&& recipe.package.inner_dir matches Some(dir) ==> crate::template::expansion(
                    vars,
                    dir@,
                ) == Ok::<Seq<char>, crate::template::Flaw>(arranged.inner_dir)
                &&& recipe.package.inner_dir is None ==> arranged.inner_dir == arranged.package
                &&& arranged.work == layout.work
                &&& arranged.dist == layout.dist
                &&& arranged.src == layout.src
                &&& arranged.stage == crate::path::joined(layout.work, "stage"@)
                &&& arranged.vars == vars.insert("package"@, arranged.package).insert(
                    "stage"@,
                    crate::path::joined(arranged.stage, arranged.inner_dir),
                )
            },
            Err(text) => crate::template::expansion(vars, text) is Err && (text
                == recipe.package.name@ || (recipe.package.inner_dir matches Some(dir) && text
                == dir@)),
        },
{
}

/// Without colours a fact is told as its label, flush right, and its value; and the
/// parts of a plan are numbered from one.
pub proof fn law_facts_and_plans_are_told(
    reporter: Reporter,
    label: Seq<char>,
    value: Seq<char>,
    names: Seq<Seq<char>>,
    at: int,
)
    requires
        !reporter.palette.enabled,
        0 <= at < names.len(),
    ensures
        info_line(reporter, label, value) == "  "@ + crate::number::padded_left(label, 10) + " "@
            + value,
        plan_lines(false, names).len() == names.len() + 2,
        plan_lines(false, names)[at + 1] == "  "@ + crate::number::padded_left(
            crate::number::decimal((at + 1) as nat),
            3,
        ) + ". "@ + names[at],
{
}

/// The models of where a build works and of what it works on say all of it.
pub proof fn law_models_say_where_a_build_works(places: Places, setup: Setup)
    ensures
        places@.work == places.work@,
        places@.dist == places.dist@,
        places@.src == places.src@,
        places@.deps_prefix == places.deps_prefix@,
        setup@.work == setup.work@,
        setup@.dist == setup.dist@,
        setup@.src == setup.src@,
        setup@.stage == setup.stage@,
        setup@.inner_dir == setup.inner_dir@,
        setup@.package == setup.package@,
        setup@.vars == setup.vars@,
{
}

/// A build goes through its parts in this order: the dependencies and the extra steps
/// for them, the source, the build steps, the verification of the build tree, the
/// package steps, the verification of what is packaged and of its libraries, the
/// archive, and the smoke steps on what is unpacked from it. Steps of one kind are in
/// the order of the recipe.
pub proof fn law_builds_go_through_their_parts(recipe: Recipe, skip_dependencies: bool)
    ensures
        ({
            let kind = |phase: Phase|
                match phase {
                    Phase::Dependencies => 0int,
                    Phase::Extra(_) => 1,
                    Phase::Source => 2,
                    Phase::Build(_) => 3,
                    Phase::VerifyBuild => 4,
                    Phase::Package(_) => 5,
                    Phase::VerifyPackaged => 6,
                    Phase::VerifyLinks => 7,
                    Phase::Archive => 8,
                    Phase::Extract => 9,
                    Phase::Smoke(_) => 10,
                };
            let turn = |phase: Phase|
                match phase {
                    Phase::Extra(i) => i as int,
                    Phase::Build(i) => i as int,
                    Phase::Package(i) => i as int,
                    Phase::Smoke(i) => i as int,
                    _ => 0,
                };
            let list = phases_of(recipe, skip_dependencies);
            forall|i: int, j: int|
                0 <= i < j < list.len() ==> kind(#[trigger] list[i]) < kind(#[trigger] list[j])
                    || kind(list[i]) == kind(list[j]) && turn(list[i]) < turn(list[j])
        }),
{
    law_phases_are_in_order(recipe, skip_dependencies);
    let list = phases_of(recipe, skip_dependencies);
    assert forall|i: int, j: int| 0 <= i < j < list.len() implies (#[trigger] list[i]).before(
        #[trigger] list[j],
    ) by {}
}

} // verus!
