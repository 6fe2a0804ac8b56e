use pie::build::steps::Invocation;
use pie::build::{
    base_vars, content_length, create_archive, digest_file, dry_run, environment, export,
    extract_for_verification, extraction_paths, gnu_arch, heading, hex, install_dependencies,
    is_root, locate_source, pipeline, places_of, prepare, prepare_archive, prepare_dependencies,
    prepare_extraction, prepare_unpacking, recipe_step, run_step, sha256_file, step_enabled,
    summary, verify_checksum, verify_packaged, verify_pie, verify_self_contained,
    write_unpack_script, BuildError, Check, Checked, Download, DownloadError, Finding, Host,
    LinkCheck, Managers, Options, Phase, Places, TEMPLATE_VARIABLES,
};
use pie::elf::{ElfInfo, InspectError};
use pie::recipe::{
    default_src_dir, default_strip_components, Checksum, ChecksumKind, Dependencies, Format,
    Package, Recipe, Resolver, Source, Step, Verify, VersionSpec,
};
use pie::resolve::Resolved;
use pie::runner::Ending;
use pie::template::Vars;
use pie::text_map::TextMap;
use pie::ui::brand::Palette;
use pie::ui::{Elapsed, Reporter};

fn step(name: &str, run: &str) -> Step {
    Step {
        name: name.into(),
        run: run.into(),
        cwd: None,
        env: TextMap::new(),
        when: None,
    }
}

fn map(entries: &[(&str, &str)]) -> TextMap {
    let mut map = TextMap::new();
    for (key, value) in entries {
        map.insert(key.to_string(), value.to_string());
    }
    map
}

fn strings(items: &[&str]) -> Vec<String> {
    items.iter().map(|s| s.to_string()).collect()
}

fn sample_recipe() -> Recipe {
    let mut optional = step("Optimise", "make lto");
    optional.when = Some("lto".into());
    Recipe {
        name: "node".into(),
        display_name: Some("Node.js".into()),
        description: Some("Official Node.js releases.".into()),
        homepage: None,
        version: VersionSpec {
            resolver: Resolver::Nodejs,
            index: Some("https://nodejs.org/dist/index.json".into()),
            listing: None,
            probe: None,
            dir_prefix: None,
            repo: None,
            tag_prefix: None,
            tags: false,
            aliases: strings(&["latest", "lts"]),
        },
        vars: map(&[("prefix", "{{workdir}}/prefix"), ("sysroot", "{{prefix}}/sys")]),
        env: map(&[("CC", "gcc"), ("CXX", "{{arch_gnu}}-g++")]),
        dependencies: Dependencies {
            apt: strings(&["make", "g++"]),
            dnf: strings(&["gcc-c++"]),
            extra: vec![step("Install rust", "true")],
        },
        source: Some(Source {
            url: "https://nodejs.org/dist/{{version}}/node-{{version}}.tar.xz".into(),
            dir: default_src_dir(),
            strip_components: default_strip_components(),
            checksum: None,
        }),
        build: vec![step("Configure", "./configure"), optional],
        verify: Verify {
            pie: strings(&["{{srcdir}}/out/node"]),
            packaged: strings(&["{{stage}}/bin/node"]),
            self_contained: vec![],
            dynamic_allowlist: vec![],
            smoke: vec![step("Smoke test", "{{extracted}}/bin/node -v")],
        },
        package: Package {
            name: "node-{{version}}-linux-{{arch}}-pie".into(),
            steps: vec![step("Install", "make install")],
            format: Format::TarXz,
            inner_dir: None,
        },
        notes: strings(&["a note"]),
    }
}

fn sample_options() -> Options {
    Options {
        recipe_path: "recipes/node.pkl".into(),
        version: "latest".into(),
        arch: "x64".into(),
        output: "dist".into(),
        work_dir: "work".into(),
        with: vec![],
        skip_dependencies: false,
        keep_work: false,
        dry_run: true,
        verbose: false,
    }
}

fn sample_resolved() -> Resolved {
    Resolved {
        version: "v22.11.0".into(),
        bare: "22.11.0".into(),
        upstream_tag: None,
        source_sha256: None,
    }
}

fn sample_host() -> Host {
    Host {
        nproc: 8,
        repo_root: "/repo".into(),
        root: false,
    }
}

fn sample_places() -> Places {
    Places {
        work: "/w".into(),
        dist: "/d".into(),
        src: "/w/src".into(),
        deps_prefix: "/w/deps".into(),
    }
}

fn sample_vars(recipe: &Recipe) -> Vars {
    base_vars(
        recipe,
        &sample_resolved(),
        &sample_options(),
        &sample_host(),
        &sample_places(),
    )
    .expect("vars build")
}

/// The declared variable list and what `base_vars` actually sets must agree,
/// or the recipe lint would pass on a variable that does not exist at build
/// time (or reject one that does).
#[test]
fn declared_variables_match_the_ones_provided() {
    let recipe = sample_recipe();
    let vars = sample_vars(&recipe);

    // Everything except the three set later in the pipeline.
    let deferred = ["package", "stage", "extracted"];
    for name in TEMPLATE_VARIABLES {
        if deferred.contains(&name) {
            continue;
        }
        assert!(
            vars.get(name).is_some(),
            "TEMPLATE_VARIABLES lists '{name}' but base_vars does not set it"
        );
    }

    for (key, _) in vars.iter() {
        // Recipe-declared vars are legitimately extra.
        if recipe.vars.contains_key(key) {
            continue;
        }
        assert!(
            TEMPLATE_VARIABLES.contains(&key.as_str()),
            "base_vars sets '{key}' but TEMPLATE_VARIABLES does not list it"
        );
    }
}

#[test]
fn derives_version_components() {
    let recipe = sample_recipe();
    let vars = sample_vars(&recipe);

    assert_eq!(vars.get("version"), Some("v22.11.0"));
    assert_eq!(vars.get("version_bare"), Some("22.11.0"));
    assert_eq!(vars.get("version_xy"), Some("22.11"));
    assert_eq!(vars.get("version_major"), Some("22"));
    assert_eq!(vars.get("arch_gnu"), Some("x86_64"));
    // Absent upstream tag must be empty, never the literal "None".
    assert_eq!(vars.get("upstream_tag"), Some(""));
}

#[test]
fn maps_arch_names() {
    assert_eq!(gnu_arch("x64"), "x86_64");
    assert_eq!(gnu_arch("arm64"), "aarch64");
}

#[test]
fn hexes_bytes() {
    assert_eq!(hex(&[0x00, 0x0f, 0xff]), "000fff");
    assert_ne!(hex(&[0x01, 0x23]), hex(&[0x12, 0x03]));
}

#[test]
fn inline_checksum_is_enforced() {
    let checksum = Checksum {
        kind: ChecksumKind::Sha256,
        url: None,
        value: Some("abc".into()),
    };
    assert!(verify_checksum(Some(&checksum), &Vars::new(), "f.tar", "abc", None).is_ok());
    assert!(verify_checksum(Some(&checksum), &Vars::new(), "f.tar", "def", None).is_err());
}

#[test]
fn recorded_checksum_never_gates() {
    let checksum = Checksum {
        kind: ChecksumKind::Record,
        url: None,
        value: None,
    };
    assert!(verify_checksum(Some(&checksum), &Vars::new(), "f.tar", "anything", None).is_ok());
}

#[test]
fn when_gates_steps() {
    let step = Step {
        name: "LTO".into(),
        run: "true".into(),
        cwd: None,
        env: TextMap::new(),
        when: Some("lto".into()),
    };
    assert!(!step_enabled(&step, &[]));
    assert!(step_enabled(&step, &["lto".to_string()]));
}

// -- variables ---------------------------------------------------------------

#[test]
fn built_in_variables_have_their_values() {
    let vars = sample_vars(&sample_recipe());
    for (key, value) in [
        ("name", "node"),
        ("version_minor", "11"),
        ("os", "linux"),
        ("arch", "x64"),
        ("nproc", "8"),
        ("workdir", "/w"),
        ("srcdir", "/w/src"),
        ("dist", "/d"),
        ("deps_prefix", "/w/deps"),
        ("repo_root", "/repo"),
        ("sudo", "sudo "),
        ("prefix", "/w/prefix"),
        ("sysroot", "/w/prefix/sys"),
    ] {
        assert_eq!(vars.get(key), Some(value), "{key}");
    }
}

#[test]
fn versions_of_one_part_have_no_minor() {
    let mut resolved = sample_resolved();
    resolved.bare = "17".into();
    resolved.upstream_tag = Some("r17".into());
    let mut host = sample_host();
    host.root = true;
    let vars = base_vars(
        &sample_recipe(),
        &resolved,
        &sample_options(),
        &host,
        &sample_places(),
    )
    .unwrap();
    assert_eq!(vars.get("version_major"), Some("17"));
    assert_eq!(vars.get("version_minor"), Some(""));
    assert_eq!(vars.get("version_xy"), Some("17"));
    assert_eq!(vars.get("upstream_tag"), Some("r17"));
    assert_eq!(vars.get("sudo"), Some(""));
}

#[test]
fn recipe_variables_build_on_those_before_them_only() {
    let mut recipe = sample_recipe();
    recipe.vars = map(&[("a", "{{b}}"), ("b", "x")]);
    let err = base_vars(
        &recipe,
        &sample_resolved(),
        &sample_options(),
        &sample_host(),
        &sample_places(),
    )
    .unwrap_err();
    assert!(err
        .message()
        .starts_with("unknown template variable '{{b}}' (known: arch, arch_gnu,"));
}

#[test]
fn environments_are_expanded() {
    let recipe = sample_recipe();
    let vars = sample_vars(&recipe);
    let env = environment(&recipe, &vars).unwrap();
    assert_eq!(env.get("CC").unwrap(), "gcc");
    assert_eq!(env.get("CXX").unwrap(), "x86_64-g++");
    let mut recipe = recipe;
    recipe.env.insert("X".into(), "{{nope}}".into());
    assert!(environment(&recipe, &vars).is_err());
}

#[test]
fn root_is_user_zero() {
    assert!(is_root(Some("0\n")));
    assert!(!is_root(Some("1000\n")));
    assert!(!is_root(Some("00")));
    assert!(!is_root(None));
}

// -- setup -------------------------------------------------------------------

#[test]
fn trees_lie_under_the_work_directory() {
    let recipe = sample_recipe();
    let opts = sample_options();
    let places = places_of(&recipe, &sample_resolved(), &opts);
    assert_eq!(places.work, "work/node-22.11.0-x64");
    assert_eq!(places.src, "work/node-22.11.0-x64/src");
    assert_eq!(places.deps_prefix, "work/node-22.11.0-x64/deps-prefix");
    assert_eq!(places.dist, "dist");
    let mut setup = prepare(&recipe, &sample_resolved(), &opts, &sample_host()).unwrap();
    assert_eq!(setup.package, "node-v22.11.0-linux-x64-pie");
    assert_eq!(setup.inner_dir, "node-v22.11.0-linux-x64-pie");
    assert_eq!(setup.stage, "work/node-22.11.0-x64/stage");
    assert_eq!(setup.vars.get("package"), Some("node-v22.11.0-linux-x64-pie"));
    assert_eq!(
        setup.vars.get("stage"),
        Some("work/node-22.11.0-x64/stage/node-v22.11.0-linux-x64-pie")
    );
    assert_eq!(setup.vars.get("extracted"), None);
    setup.set_extracted("/x");
    assert_eq!(setup.vars.get("extracted"), Some("/x"));
    let reporter = Reporter::new(false, false, false, Palette { enabled: false });
    assert_eq!(
        setup.facts(&recipe, &sample_resolved(), &opts, &reporter),
        vec![
            "      recipe recipes/node.pkl",
            "     version v22.11.0",
            "      target linux-x64",
            "    artifact node-v22.11.0-linux-x64-pie.tar.xz",
            "    work dir work/node-22.11.0-x64",
        ]
    );
}

#[test]
fn inner_directories_may_differ_from_the_package() {
    let mut recipe = sample_recipe();
    recipe.source = None;
    recipe.package.inner_dir = Some("node-{{version_xy}}".into());
    let opts = sample_options();
    let places = places_of(&recipe, &sample_resolved(), &opts);
    assert_eq!(places.src, "work/node-22.11.0-x64/src");
    let setup = prepare(&recipe, &sample_resolved(), &opts, &sample_host()).unwrap();
    assert_eq!(setup.inner_dir, "node-22.11");
    recipe.package.inner_dir = Some("{{package}}".into());
    assert!(prepare(&recipe, &sample_resolved(), &opts, &sample_host()).is_err());
}

// -- steps -------------------------------------------------------------------

fn invocation(result: Result<Invocation, BuildError>) -> Invocation {
    result.expect("step expands")
}

#[test]
fn steps_run_with_their_layers_of_environment() {
    let mut vars = Vars::new();
    vars.set("workdir", "/w").set("straße", "s");
    let env = map(&[("CC", "gcc"), ("PIE_WORKDIR", "no"), ("KEEP", "k")]);
    let mut step = step("Build {{workdir}}", "make -C {{workdir}}");
    step.cwd = Some("src".into());
    step.env = map(&[("CC", "clang {{workdir}}")]);
    let with = strings(&["pgo", "lto"]);
    let run = invocation(run_step(&step, &vars, &env, "/w", &with).unwrap());
    assert_eq!(run.name, "Build /w");
    assert_eq!(run.script, "make -C /w");
    assert_eq!(run.cwd, "/w/src");
    let pairs: Vec<(&str, &str)> = run
        .env
        .entries()
        .iter()
        .map(|(key, value)| (key.as_str(), value.as_str()))
        .collect();
    assert_eq!(
        pairs,
        vec![
            ("CC", "clang /w"),
            ("KEEP", "k"),
            ("PIE_STRASSE", "s"),
            ("PIE_WITH", "pgo lto"),
            ("PIE_WORKDIR", "/w"),
        ]
    );
}

#[test]
fn variables_are_exported_over_the_environment() {
    let named = vec![
        ("ARCH".to_string(), "x64".to_string()),
        ("ARCH".to_string(), "arm64".to_string()),
    ];
    let env = export(map(&[("PIE_ARCH", "old"), ("ARCH", "kept")]), &named);
    assert_eq!(env.get("PIE_ARCH").unwrap(), "arm64");
    assert_eq!(env.get("ARCH").unwrap(), "kept");
}

#[test]
fn steps_not_asked_for_are_left_out() {
    let mut step = step("{{nope}}", "");
    assert!(matches!(
        run_step(&step, &Vars::new(), &TextMap::new(), "/w", &[]),
        Some(Err(BuildError::Template { .. }))
    ));
    step.when = Some("lto".into());
    assert!(run_step(&step, &Vars::new(), &TextMap::new(), "/w", &[]).is_none());
}

#[test]
fn absolute_directories_replace_the_work_directory() {
    let mut step = step("a", "b");
    step.cwd = Some("/elsewhere".into());
    let run = invocation(run_step(&step, &Vars::new(), &TextMap::new(), "/w", &[]).unwrap());
    assert_eq!(run.cwd, "/elsewhere");
}

#[test]
fn failed_steps_are_named() {
    let run = invocation(
        run_step(&step("Build", "b"), &Vars::new(), &TextMap::new(), "/w", &[]).unwrap(),
    );
    let ended = |success, code| Ending::Ended { success, code };
    assert!(run.outcome(ended(true, Some(0))).is_ok());
    for (ending, words) in [
        (
            ended(false, Some(2)),
            "step 'Build' failed: command exited with status 2",
        ),
        (
            ended(false, None),
            "step 'Build' failed: command was killed by a signal",
        ),
        (
            Ending::NoDirectory,
            "step 'Build' failed: working directory /w does not exist",
        ),
        (
            Ending::NotStarted {
                cause: "no bash".into(),
            },
            "step 'Build' failed: could not start bash (is it installed and on PATH?): no bash",
        ),
        (
            Ending::Lost { cause: "gone".into() },
            "step 'Build' failed: gone",
        ),
    ] {
        assert_eq!(run.outcome(ending).unwrap_err().message(), words);
    }
}

fn managers(apt_get: bool, dnf: bool, yum: bool) -> Managers {
    Managers { apt_get, dnf, yum }
}

#[test]
fn packages_are_installed_with_the_manager_there_is() {
    let deps = sample_recipe().dependencies;
    let mut vars = Vars::new();
    vars.set("sudo", "sudo ");
    let script = |m| install_dependencies(&deps, &vars, m).map(|step| step.run);
    assert_eq!(
        script(managers(true, true, true)).as_deref(),
        Some("sudo apt-get update\nsudo apt-get install -y --no-install-recommends make g++")
    );
    assert_eq!(
        script(managers(false, true, true)).as_deref(),
        Some("sudo dnf install -y gcc-c++")
    );
    assert_eq!(
        script(managers(false, false, true)).as_deref(),
        Some("sudo yum install -y gcc-c++")
    );
    assert_eq!(script(managers(false, false, false)), None);
    let none = Dependencies::default();
    assert!(install_dependencies(&none, &vars, managers(true, true, true)).is_none());

    let run = prepare_dependencies(
        &deps,
        &Vars::new(),
        &map(&[("CC", "gcc")]),
        "/w",
        managers(false, true, false),
    );
    let run = invocation(run.unwrap());
    assert_eq!(run.name, "Install build dependencies");
    assert_eq!(run.script, "dnf install -y gcc-c++");
    assert_eq!(run.env.get("CC").unwrap(), "gcc");
    assert_eq!(run.env.get("PIE_WITH").unwrap(), "");
}

#[test]
fn sources_are_named_by_their_address() {
    let recipe = sample_recipe();
    let vars = sample_vars(&recipe);
    let mut source = recipe.source.unwrap();
    let fetch = locate_source(&source, &vars, "/w").unwrap();
    assert_eq!(
        fetch.url,
        "https://nodejs.org/dist/v22.11.0/node-v22.11.0.tar.xz"
    );
    assert_eq!(fetch.filename, "node-v22.11.0.tar.xz");
    assert_eq!(fetch.downloads, "/w/downloads");
    assert_eq!(fetch.archive, "/w/downloads/node-v22.11.0.tar.xz");

    let run = invocation(prepare_unpacking(&source, &fetch, "/w/src", &vars, "/w"));
    assert_eq!(run.name, "Unpack node-v22.11.0.tar.xz");
    assert_eq!(
        run.script,
        "tar -xf \"/w/downloads/node-v22.11.0.tar.xz\" -C \"/w/src\" --strip-components=1"
    );
    assert_eq!(run.cwd, "/w");
    assert_eq!(run.env.get("PIE_WORKDIR").unwrap(), "/w");
    assert_eq!(run.env.get("CC"), None);

    source.url = "https://x/a.zip".into();
    let fetch = locate_source(&source, &vars, "/w").unwrap();
    let run = invocation(prepare_unpacking(&source, &fetch, "/w/a \"b\"", &vars, "/w"));
    assert_eq!(
        run.script,
        "unzip -q \"/w/downloads/a.zip\" -d \"/w/a \\\"b\\\"\""
    );

    source.url = "https://x/".into();
    assert_eq!(
        locate_source(&source, &vars, "/w").unwrap_err().message(),
        "source url has no filename"
    );
    source.url = "{{nope".into();
    assert_eq!(
        locate_source(&source, &vars, "/w").unwrap_err().message(),
        "unterminated '{{' in template: {{nope"
    );
}

#[test]
fn sources_are_unpacked_by_format() {
    assert_eq!(
        write_unpack_script("a.zip", "<a>", "<s>", 2),
        "unzip -q <a> -d <s>"
    );
    assert_eq!(
        write_unpack_script("a.tar.gz", "<a>", "<s>", 2),
        "tar -xf <a> -C <s> --strip-components=2"
    );
}

#[test]
fn artifacts_are_packed_and_unpacked_by_format() {
    let (step, archive) = create_archive(Format::TarXz, "p", "p", "/s", "dist");
    assert_eq!(archive, "dist/p.tar.xz");
    assert_eq!(step.name, "Create p.tar.xz");
    assert_eq!(step.run, "tar -C '/s' -cJf 'dist/p.tar.xz' 'p'");
    let (step, _) = create_archive(Format::TarGz, "p", "i", "/s", "dist");
    assert_eq!(step.run, "tar -C '/s' -czf 'dist/p.tar.gz' 'i'");
    let (step, _) = create_archive(Format::Zip, "p", "i", "/s", "dist");
    assert_eq!(
        step.run,
        "cd '/s' && rm -f 'dist/p.zip' && zip -qr 'dist/p.zip' 'i'"
    );
    let (run, archive) = prepare_archive(Format::TarXz, "p", "p", "/s", "dist");
    let run = invocation(run);
    assert_eq!(run.cwd, "dist");
    assert_eq!(archive, "dist/p.tar.xz");
    let (run, _) = prepare_archive(Format::TarXz, "{{", "p", "/s", "dist");
    assert!(run.is_err());

    let (target, extracted) = extraction_paths("/w", "i");
    assert_eq!(target, "/w/verify");
    assert_eq!(extracted, "/w/verify/i");
    let step = extract_for_verification(Format::TarGz, "a", &target);
    assert_eq!(step.run, "tar -C '/w/verify' -xf 'a'");
    let run = invocation(prepare_extraction(Format::Zip, "a", &target, "/w"));
    assert_eq!(run.name, "Unpack artifact to a fresh prefix");
    assert_eq!(run.script, "unzip -q 'a' -d '/w/verify'");
}

#[test]
fn digests_are_written_beside_artifacts() {
    let digest = sha256_file(b"abc");
    assert_eq!(
        digest,
        "ba7816bf8f01cfea414140de5dae2223b00361a396177a9cb410ff61f20015ad"
    );
    let (path, text) = digest_file(Format::TarXz, "p", "dist", &digest);
    assert_eq!(path, "dist/p.tar.xz.sha256");
    assert_eq!(text, format!("{digest}  p.tar.xz\n"));
    // What was written is a manifest of the artifact.
    let query = manifest_query("p.tar.xz", &digest);
    assert!(query.answer(&text).is_ok());
}

// -- checksums ---------------------------------------------------------------

fn checksum(kind: ChecksumKind) -> Checksum {
    Checksum {
        kind,
        url: None,
        value: None,
    }
}

fn accepted(result: Result<Checked, BuildError>) -> String {
    match result {
        Ok(Checked::Accepted(text)) => text,
        other => panic!("{other:?}"),
    }
}

#[test]
fn accepted_digests_in_words() {
    let vars = Vars::new();
    assert_eq!(
        accepted(verify_checksum(None, &vars, "f", "d", None)),
        "sha256 d (unverified)"
    );
    let record = checksum(ChecksumKind::Record);
    assert_eq!(
        accepted(verify_checksum(Some(&record), &vars, "f", "d", None)),
        "sha256 d (recorded, no published checksum)"
    );
    let index = checksum(ChecksumKind::FromIndex);
    assert_eq!(
        accepted(verify_checksum(Some(&index), &vars, "f", "d", Some("d"))),
        "sha256 d verified against the release index"
    );
    let mut inline = checksum(ChecksumKind::Sha256);
    inline.value = Some("d".into());
    assert_eq!(
        accepted(verify_checksum(Some(&inline), &vars, "f", "d", None)),
        "sha256 d verified"
    );
}

#[test]
fn refused_digests_in_words() {
    let vars = Vars::new();
    let refuse = |checksum: &Checksum, index: Option<&str>| {
        verify_checksum(Some(checksum), &vars, "f", "d", index)
            .unwrap_err()
            .message()
    };
    let index = checksum(ChecksumKind::FromIndex);
    assert_eq!(
        refuse(&index, None),
        "checksum kind 'from-index' needs a resolver that publishes digests"
    );
    assert_eq!(
        refuse(&index, Some("e")),
        "checksum mismatch against the release index: expected e, got d"
    );
    let mut inline = checksum(ChecksumKind::Sha256);
    assert_eq!(
        refuse(&inline, None),
        "checksum kind 'sha256' needs a `value`"
    );
    inline.value = Some("e".into());
    assert_eq!(refuse(&inline, None), "checksum mismatch: expected e, got d");
    let mut manifest = checksum(ChecksumKind::Sha256Manifest);
    assert_eq!(
        refuse(&manifest, None),
        "checksum kind 'sha256-manifest' needs a `url`"
    );
    manifest.url = Some("{{nope}}".into());
    assert_eq!(
        refuse(&manifest, None),
        "unknown template variable '{{nope}}' (known: )"
    );
}

fn manifest_query(filename: &str, digest: &str) -> pie::build::ManifestQuery {
    let mut manifest = checksum(ChecksumKind::Sha256Manifest);
    manifest.url = Some("https://m/{{name}}".into());
    let mut vars = Vars::new();
    vars.set("name", "SUMS");
    match verify_checksum(Some(&manifest), &vars, filename, digest, None) {
        Ok(Checked::Manifest(query)) => query,
        other => panic!("{other:?}"),
    }
}

#[test]
fn manifests_spell_names_in_several_ways() {
    let query = manifest_query("f.tar", "d");
    assert_eq!(query.url, "https://m/SUMS");
    for manifest in [
        "x other\nd  f.tar\n",
        "d *f.tar",
        "d ./f.tar\r\n",
        "\n\n  d\tf.tar  trailing\ne f.tar",
    ] {
        assert_eq!(
            manifest_query("f.tar", "d").answer(manifest).unwrap(),
            "sha256 d verified against https://m/SUMS"
        );
    }
}

#[test]
fn manifests_can_refuse() {
    let refuse = |manifest: &str| {
        manifest_query("f.tar", "d")
            .answer(manifest)
            .unwrap_err()
            .message()
    };
    assert_eq!(refuse(""), "f.tar is not listed in https://m/SUMS");
    assert_eq!(refuse("d f.tar.gz\nd"), "f.tar is not listed in https://m/SUMS");
    // The first line that names the file counts.
    assert_eq!(
        refuse("e f.tar\nd f.tar"),
        "checksum mismatch against https://m/SUMS: expected e, got d"
    );
    assert_eq!(
        manifest_query("f", "d").unreachable("404".into()).message(),
        "fetching https://m/SUMS: 404"
    );
    assert_eq!(manifest_query("f", "d").unreadable("bad".into()).message(), "bad");
}

// -- downloads ---------------------------------------------------------------

#[test]
fn downloads_are_reported_now_and_then() {
    let mut download = Download::new(16 * 1024 * 1024);
    assert_eq!(download.take(4 * 1024 * 1024 - 1), None);
    assert_eq!(
        download.take(1).as_deref(),
        Some("downloaded 4.0 MiB / 16.0 MiB (25%)")
    );
    assert_eq!(download.take(1), None);
    assert!(matches!(
        download.finish(),
        Err(DownloadError::Truncated { .. })
    ));
    assert_eq!(
        download.finish().unwrap_err().message(),
        "truncated download: got 4194305 of 16777216 bytes"
    );
    download.take(12 * 1024 * 1024 - 1);
    assert!(download.finish().is_ok());
}

#[test]
fn downloads_of_unknown_size_are_never_truncated() {
    let mut download = Download::new(0);
    assert_eq!(
        download.take(5 * 1024 * 1024).as_deref(),
        Some("downloaded 5.0 MiB")
    );
    assert!(download.finish().is_ok());
    assert!(download.can_take(u64::MAX - 5 * 1024 * 1024));
    assert!(!download.can_take(u64::MAX));
    assert!(!Download::new(1).can_take(u64::MAX / 100 + 1));
    assert!(Download::new(1).can_take(u64::MAX / 100));
    let halted = Download {
        total: 1,
        written: u64::MAX / 100,
        reported: u64::MAX / 100,
    };
    assert!(halted.can_take(4 * 1024 * 1024 - 1));
    assert!(!halted.can_take(4 * 1024 * 1024));
}

#[test]
fn content_lengths_are_numbers() {
    assert_eq!(content_length(Some("1234")), 1234);
    assert_eq!(content_length(Some("+7")), 7);
    assert_eq!(content_length(Some("12x")), 0);
    assert_eq!(content_length(Some("18446744073709551616")), 0);
    assert_eq!(content_length(Some("")), 0);
    assert_eq!(content_length(None), 0);
}

#[test]
fn download_errors_say_what_was_downloaded() {
    let error = BuildError::Download {
        url: "https://x/a".into(),
        reason: DownloadError::Failed { cause: "404".into() },
    };
    assert_eq!(error.message(), "downloading https://x/a: 404");
}

// -- verification ------------------------------------------------------------

fn image(pie: bool, needed: &[&str]) -> ElfInfo {
    ElfInfo {
        is_dyn: true,
        has_pie_flag: pie,
        has_interp: true,
        needed: strings(needed),
    }
}

fn inspect(check: Check) -> pie::build::Inspection {
    match check {
        Check::Inspect(inspection) => inspection,
        other => panic!("{other:?}"),
    }
}

fn refused(check: Check) -> String {
    match check {
        Check::Failed(error) => error.message(),
        other => panic!("{other:?}"),
    }
}

#[test]
fn every_executable_has_to_be_position_independent() {
    let mut vars = Vars::new();
    vars.set("srcdir", "/w/src");
    let paths = strings(&["{{srcdir}}/a", "b"]);
    let first = inspect(verify_pie(&paths, &vars, "/w"));
    assert_eq!(first.path, "/w/src/a");
    let (line, check) = first.judge(Finding::Image(image(true, &[])));
    assert_eq!(
        line.as_deref(),
        Some("/w/src/a — ELF DYN, DT_FLAGS_1 PIE, PT_INTERP present")
    );
    let second = inspect(check);
    assert_eq!(second.path, "/w/b");
    let (_, check) = second.judge(Finding::Image(image(true, &[])));
    assert!(matches!(check, Check::Passed));
    assert!(matches!(verify_pie(&vec![], &vars, "/w"), Check::Passed));
}

#[test]
fn refused_executables_in_words() {
    let paths = strings(&["a"]);
    let first = || inspect(verify_pie(&paths, &Vars::new(), "/w"));
    let (line, check) = first().judge(Finding::Image(image(false, &[])));
    assert_eq!(
        line.as_deref(),
        Some("/w/a: DT_FLAGS_1 does not carry PIE")
    );
    assert_eq!(
        refused(check),
        "/w/a is not a position independent executable"
    );
    let (line, check) = first().judge(Finding::Missing);
    assert_eq!(line, None);
    assert_eq!(refused(check), "/w/a does not exist");
    let fault = InspectError::Reading {
        path: "/w/a".into(),
        cause: "denied".into(),
    };
    let (_, check) = first().judge(Finding::Unreadable(fault));
    assert_eq!(refused(check), "reading /w/a: denied");
    assert_eq!(
        refused(verify_pie(&strings(&["{{x}}"]), &Vars::new(), "/w")),
        "unknown template variable '{{x}}' (known: )"
    );
}

#[test]
fn packaged_executables_are_verified_when_they_exist() {
    let paths = strings(&["a", "b"]);
    let first = inspect(verify_packaged(&paths, &Vars::new(), "/w"));
    let (line, check) = first.judge(Finding::Missing);
    assert_eq!(line, None);
    let second = inspect(check);
    assert_eq!(second.path, "/w/b");
    let (_, check) = second.judge(Finding::Image(image(false, &[])));
    assert_eq!(
        refused(check),
        "/w/b is not a position independent executable"
    );
}

#[test]
fn self_contained_executables_need_only_what_is_allowed() {
    let allowed = strings(&["libc.so", "ld-linux"]);
    let paths = strings(&["a", "b"]);
    let inspect = |check: LinkCheck| match check {
        LinkCheck::Inspect(inspection) => inspection,
        other => panic!("{other:?}"),
    };
    let first = inspect(verify_self_contained(&paths, &allowed, &Vars::new(), "/w"));
    let (line, check) = first.judge(Ok(image(true, &["libc.so.6", "ld-linux-x86-64.so.2"])));
    assert_eq!(
        line.as_deref(),
        Some("/w/a needs only libc.so.6, ld-linux-x86-64.so.2")
    );
    let (line, check) = inspect(check).judge(Ok(image(true, &["libz.so", "libc.so.6", "liby"])));
    assert_eq!(
        line.as_deref(),
        Some("/w/b links libz.so, liby which should have been static")
    );
    match check {
        LinkCheck::Failed(error) => assert_eq!(error.message(), "/w/b is not self-contained"),
        other => panic!("{other:?}"),
    }
    assert!(matches!(
        verify_self_contained(&vec![], &allowed, &Vars::new(), "/w"),
        LinkCheck::Passed
    ));
}

// -- the pipeline ------------------------------------------------------------

#[test]
fn builds_are_verified_before_they_are_packaged() {
    let recipe = sample_recipe();
    let mut opts = sample_options();
    assert_eq!(
        pipeline(&recipe, &opts),
        vec![
            Phase::Dependencies,
            Phase::Extra(0),
            Phase::Source,
            Phase::Build(0),
            Phase::Build(1),
            Phase::VerifyBuild,
            Phase::Package(0),
            Phase::VerifyPackaged,
            Phase::VerifyLinks,
            Phase::Archive,
            Phase::Extract,
            Phase::Smoke(0),
        ]
    );
    opts.skip_dependencies = true;
    assert_eq!(pipeline(&recipe, &opts)[0], Phase::Extra(0));
    let mut bare = sample_recipe();
    bare.verify.smoke = vec![];
    assert_eq!(pipeline(&bare, &opts).last(), Some(&Phase::Archive));

    assert_eq!(recipe_step(&recipe, Phase::Build(1)).unwrap().name, "Optimise");
    assert_eq!(recipe_step(&recipe, Phase::Smoke(0)).unwrap().name, "Smoke test");
    assert!(recipe_step(&recipe, Phase::Build(2)).is_none());
    assert!(recipe_step(&recipe, Phase::Archive).is_none());
}

#[test]
fn plans_list_what_is_going_to_be_done() {
    let recipe = sample_recipe();
    let vars = sample_vars(&recipe);
    let reporter = Reporter::new(false, false, false, Palette { enabled: false });
    let mut opts = sample_options();
    let preview = dry_run(&recipe, &vars, &opts, &reporter);
    assert!(preview.error.is_none());
    assert_eq!(
        preview.lines,
        vec![
            "  plan",
            "    1. Install build dependencies",
            "    2. Install rust",
            "    3. Download source",
            "    4. Configure",
            "    5. Verify PIE",
            "    6. Install",
            "    7. Create archive",
            "    8. Smoke test",
            "\n  source",
            "  https://nodejs.org/dist/v22.11.0/node-v22.11.0.tar.xz",
            "",
        ]
    );
    opts.with = strings(&["lto"]);
    opts.skip_dependencies = true;
    let mut recipe = recipe;
    recipe.source = None;
    let preview = dry_run(&recipe, &vars, &opts, &reporter);
    assert_eq!(preview.lines[1], "    1. Install rust");
    assert_eq!(preview.lines[3], "    3. Optimise");
    assert_eq!(
        preview.lines[preview.lines.len() - 2],
        "  (fetched by the recipe's own build steps)"
    );
    let preview = dry_run(&sample_recipe(), &Vars::new(), &opts, &reporter);
    assert_eq!(preview.lines.last().unwrap(), "\n  source");
    assert!(preview.error.is_some());
}

#[test]
fn reports_name_the_artifact() {
    let reporter = Reporter::new(false, false, false, Palette { enabled: false });
    let recipe = sample_recipe();
    assert_eq!(
        heading(&recipe, &reporter),
        "\n  pie · Node.js Official Node.js releases."
    );
    let elapsed = Elapsed {
        secs: 132,
        nanos: 0,
    };
    assert_eq!(
        summary(&recipe, "v22.11.0", "dist/a", elapsed, 2048, &reporter),
        vec![
            "\n  ✔ Node.js v22.11.0 built in 2m 12s\n",
            "  dist/a (2.0 KiB)",
            "  dist/a.sha256\n",
        ]
    );
}
