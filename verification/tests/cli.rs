use pie::cli::{
    host_arch, list_line, outcome, recipes_hint, render_target, require_some, require_sources,
    settle, show, source_paths, tally, unreadable_line, upkeep, upkeep_line, verdict,
    write_rendered, Upkeep,
};
use pie::elf::{ElfInfo, InspectError};
use pie::recipe::{
    Dependencies, Format, Package, Recipe, Resolver, Step, Verify, VersionSpec,
};
use pie::text_map::TextMap;
use pie::ui::brand::Palette;
use std::collections::HashMap;

const OFF: Palette = Palette { enabled: false };

fn strings(items: &[&str]) -> Vec<String> {
    items.iter().map(|s| s.to_string()).collect()
}

#[test]
fn host_architectures_have_short_names() {
    assert_eq!(host_arch("aarch64"), "arm64");
    assert_eq!(host_arch("x86_64"), "x64");
}

#[test]
fn missing_recipe_directories_are_reported() {
    assert!(recipes_hint("recipes", None).is_ok());
    assert_eq!(
        recipes_hint("recipes", Some("gone".into())).unwrap_err().message(),
        "recipe directory recipes not found: gone"
    );
}

#[test]
fn sources_to_render_have_to_be_there() {
    let paths = source_paths("recipes", &strings(&["a", "b"]));
    assert_eq!(paths, vec!["recipes/a.pkl", "recipes/b.pkl"]);
    assert!(require_sources(&paths, &vec![true, true]).is_ok());
    assert_eq!(
        require_sources(&paths, &vec![true, false]).unwrap_err().message(),
        "no Pkl source at recipes/b.pkl"
    );
    assert!(require_some("recipes", &paths).is_ok());
    assert_eq!(
        require_some("recipes", &vec![]).unwrap_err().message(),
        "no .pkl recipes in recipes"
    );
    assert_eq!(
        render_target("out", "recipes/a.b.pkl").unwrap(),
        ("a.b".to_string(), "out/a.b.yaml".to_string())
    );
    assert_eq!(
        render_target("out", "..").unwrap_err().message(),
        "recipe path has no file name"
    );
}

#[test]
fn rendered_recipes_are_kept_up_to_date() {
    let text = write_rendered("recipes/a.pkl", "name: a\n");
    assert_eq!(
        text,
        "# Generated from recipes/a.pkl by `pie generate` — do not edit.\n#\nname: a\n"
    );
    assert_eq!(upkeep(None, &text, false), Upkeep::Write);
    assert_eq!(upkeep(None, &text, true), Upkeep::Stale);
    assert_eq!(upkeep(Some("old".into()), &text, true), Upkeep::Stale);
    assert_eq!(upkeep(Some(text.clone()), &text, true), Upkeep::UpToDate);
    assert_eq!(upkeep(None, "", true), Upkeep::UpToDate);
    assert_eq!(upkeep_line(OFF, Upkeep::UpToDate, "a"), "  ✔ a up to date");
    assert_eq!(upkeep_line(OFF, Upkeep::Stale, "a"), "  ✖ a is stale");
    assert_eq!(upkeep_line(OFF, Upkeep::Write, "a"), "  ✔ a written");
}

#[test]
fn a_run_names_every_stale_recipe() {
    let result = |id: &str, upkeep| (id.to_string(), upkeep);
    assert!(outcome(&vec![]).is_ok());
    assert!(outcome(&vec![result("a", Upkeep::Write), result("b", Upkeep::UpToDate)]).is_ok());
    let results = vec![
        result("a", Upkeep::Stale),
        result("b", Upkeep::UpToDate),
        result("c", Upkeep::Stale),
    ];
    assert_eq!(
        outcome(&results).unwrap_err().message(),
        "a, c out of date with their Pkl sources: run `pie generate`"
    );
}

#[test]
fn sources_are_settled_against_their_files() {
    let mut results = vec![];
    let stale = settle(&mut results, "out", "in/a.pkl", "x\n", Some("old".into()), true).unwrap();
    assert_eq!(stale.id, "a");
    assert_eq!(stale.target, "out/a.yaml");
    assert_eq!(stale.text, write_rendered("in/a.pkl", "x\n"));
    assert_eq!(stale.upkeep, Upkeep::Stale);
    assert_eq!(
        settle(&mut results, "out", "..", "x\n", None, true).unwrap_err().message(),
        "recipe path has no file name"
    );
    assert_eq!(results, vec![("a".to_string(), Upkeep::Stale)]);
}

/// Runs over recipes of which `files` holds the rendered ones.
fn run(files: &mut HashMap<String, String>, names: &[&str], check: bool) -> Vec<(String, Upkeep)> {
    let mut results = vec![];
    for source in source_paths("recipes", &strings(names)) {
        let (_, target) = render_target("recipes", &source).unwrap();
        let body = format!("source: {source}\n");
        let current = files.get(&target).cloned();
        let settled = settle(&mut results, "recipes", &source, &body, current, check).unwrap();
        if settled.upkeep == Upkeep::Write {
            files.insert(settled.target, settled.text);
        }
    }
    results
}

#[test]
fn a_second_run_finds_nothing_to_do() {
    let names = ["a", "b.c", ".d", "a"];
    let mut files = HashMap::new();
    files.insert("recipes/a.yaml".to_string(), "old".to_string());
    let untouched = files.clone();

    let checked = run(&mut files, &names, true);
    assert_eq!(files, untouched);
    assert_eq!(
        outcome(&checked).unwrap_err().message(),
        "a, b.c, .d, a out of date with their Pkl sources: run `pie generate`"
    );

    let first = run(&mut files, &names, false);
    assert!(outcome(&first).is_ok());
    assert_eq!(first[0], ("a".to_string(), Upkeep::Write));
    assert_eq!(first[3], ("a".to_string(), Upkeep::UpToDate));
    let written = files.clone();

    for check in [true, false] {
        let again = run(&mut files, &names, check);
        assert!(again.iter().all(|result| result.1 == Upkeep::UpToDate));
        assert_eq!(again.len(), names.len());
        assert!(outcome(&again).is_ok());
        assert_eq!(files, written);
    }
}

#[test]
fn binaries_are_counted() {
    let info = |pie| ElfInfo {
        is_dyn: true,
        has_pie_flag: pie,
        has_interp: true,
        needed: strings(&["libc.so.6", "libm.so.6"]),
    };
    let good = verdict(OFF, "/bin/a", &Ok(info(true)));
    assert_eq!(good.line, "  ✔ /bin/a needs: libc.so.6, libm.so.6");
    let bad = verdict(OFF, "/bin/b", &Ok(info(false)));
    assert_eq!(bad.line, "  ✖ /bin/b DT_FLAGS_1 does not carry PIE");
    let lost = verdict(
        OFF,
        "/bin/c",
        &Err(InspectError::Reading {
            path: "/bin/c".into(),
            cause: "gone".into(),
        }),
    );
    assert_eq!(lost.line, "  ✖ /bin/c reading /bin/c: gone");
    assert!(tally(&vec![good.pie]).is_ok());
    assert_eq!(
        tally(&vec![good.pie, bad.pie, lost.pie]).unwrap_err().message(),
        "2 of 3 binaries are not PIE"
    );
}

fn recipe() -> Recipe {
    Recipe {
        name: "redis".into(),
        display_name: None,
        description: None,
        homepage: None,
        version: VersionSpec {
            resolver: Resolver::Github,
            index: None,
            listing: None,
            probe: None,
            dir_prefix: None,
            repo: None,
            tag_prefix: None,
            tags: false,
            aliases: vec![],
        },
        vars: TextMap::new(),
        env: TextMap::new(),
        dependencies: Dependencies::default(),
        source: None,
        build: vec![],
        verify: Verify::default(),
        package: Package {
            name: "redis-{{version}}".into(),
            steps: vec![],
            format: Format::Zip,
            inner_dir: None,
        },
        notes: vec![],
    }
}

#[test]
fn recipes_are_listed_in_columns() {
    let mut recipe = recipe();
    assert_eq!(list_line(OFF, &recipe), "  redis      ");
    recipe.description = Some("Redis.".into());
    assert_eq!(list_line(OFF, &recipe), "  redis      Redis.");
    assert_eq!(unreadable_line(OFF, "broken"), "  broken     (unreadable)");
}

#[test]
fn recipes_are_shown() {
    let mut recipe = recipe();
    assert_eq!(
        show(OFF, &recipe, "recipes/redis.pkl"),
        vec![
            "",
            "  redis",
            "",
            "          recipe recipes/redis.pkl",
            "          source fetched by the recipe's own build steps",
            "        artifact redis-{{version}}.zip",
            "\n  build",
            "",
        ]
    );
    recipe.display_name = Some("Redis".into());
    recipe.description = Some("A store.".into());
    recipe.homepage = Some("https://redis.io".into());
    recipe.version.aliases = strings(&["latest", "lts"]);
    recipe.dependencies.apt = strings(&["make", "gcc"]);
    recipe.dependencies.dnf = strings(&["make"]);
    recipe.verify.pie = strings(&["src/redis-server"]);
    recipe.notes = strings(&["one", "two"]);
    let step = |when: Option<&str>| Step {
        name: "Compile".into(),
        run: "make".into(),
        cwd: None,
        env: TextMap::new(),
        when: when.map(str::to_string),
    };
    recipe.build = vec![step(None), step(Some("lto"))];
    assert_eq!(
        show(OFF, &recipe, "r"),
        vec![
            "",
            "  Redis",
            "  A store.",
            "",
            "          recipe r",
            "        homepage https://redis.io",
            "          source fetched by the recipe's own build steps",
            "         aliases latest, lts",
            "        artifact redis-{{version}}.zip",
            "             apt make gcc",
            "             dnf make",
            "\n  build",
            "    1. Compile",
            "    2. Compile  (only with --with lto)",
            "\n  must be PIE",
            "       src/redis-server",
            "\n  notes",
            "       one",
            "       two",
            "",
        ]
    );
}
