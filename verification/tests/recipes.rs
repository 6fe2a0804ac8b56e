use pie::path::extension;
use pie::recipe::{
    accept_text, candidates, default_src_dir, default_strip_components, find, is_pkl, list,
    pkl_sources, render, rendered, Dependencies, Format, PklRun, RecipeError, Rendering, Verify, EXTENSIONS,
};

fn strings(items: &[&str]) -> Vec<String> {
    items.iter().map(|s| s.to_string()).collect()
}

/// A stale generated `.yaml` sitting next to its `.pkl` must never win, or a
/// build would silently use output that no longer matches its source.
#[test]
fn lookup_prefers_pkl_over_generated_yaml() {
    let files = strings(&["/tmp/p/demo.yaml", "/tmp/p/demo.pkl"]);
    let looked_for = candidates("/tmp/p", "demo");
    let mut is_file = [false; 3];
    for (at, path) in looked_for.iter().enumerate() {
        is_file[at] = files.contains(path);
    }
    let found = find("/tmp/p", "demo", is_file, list(&files)).expect("recipe resolves");
    assert_eq!(extension(&found).as_deref(), Some("pkl"));

    // And the pair counts as one recipe, not two.
    assert_eq!(list(&files), vec!["demo".to_string()]);
}

#[test]
fn recipes_are_looked_for_by_extension() {
    assert_eq!(EXTENSIONS, ["pkl", "yaml", "yml"]);
    assert_eq!(candidates("r", "a"), vec!["r/a.pkl", "r/a.yaml", "r/a.yml"]);
    assert_eq!(find("r", "a", [false, true, true], vec![]).unwrap(), "r/a.yaml");
    assert_eq!(find("r", "a", [false, false, true], vec![]).unwrap(), "r/a.yml");
    assert_eq!(
        find("r", "a", [false; 3], vec![]).unwrap_err().message(),
        "no recipe named 'a' in r"
    );
    assert_eq!(
        find("r", "a", [false; 3], strings(&["b", "c"])).unwrap_err().message(),
        "no recipe named 'a' in r (available: b, c)"
    );
}

#[test]
fn recipes_are_listed_once_and_in_order() {
    let paths = strings(&[
        "r/redis.yaml",
        "r/node.pkl",
        "r/redis.pkl",
        "r/README.md",
        "r/.pkl",
        "r/bun.yml",
        "r/no_extension",
    ]);
    assert_eq!(list(&paths), vec!["bun", "node", "redis"]);
    assert_eq!(pkl_sources(&paths), vec!["r/node.pkl", "r/redis.pkl"]);
    assert!(is_pkl("r/node.pkl"));
    assert!(!is_pkl("r/.pkl"));
}

#[test]
fn pkl_recipes_are_evaluated() {
    assert_eq!(render("a.pkl"), Rendering::Evaluate);
    assert_eq!(render("a.yaml"), Rendering::Read);
    let ran = |success, stdout: &[u8], stderr: &[u8]| PklRun::Ran {
        success,
        stdout: stdout.to_vec(),
        stderr: stderr.to_vec(),
    };
    assert_eq!(
        rendered("a.pkl", ran(true, "é: 1\n".as_bytes(), b"")).unwrap(),
        "é: 1\n"
    );
    let err = rendered("a.pkl", ran(true, b"ab\xff", b"")).unwrap_err();
    assert!(matches!(err, RecipeError::NotUtf8 { .. }));
    assert_eq!(
        err.message(),
        "pkl produced invalid UTF-8: invalid utf-8 sequence of 1 bytes from index 2"
    );
    assert_eq!(
        accept_text(Err("bad".to_string())).unwrap_err().message(),
        "pkl produced invalid UTF-8: bad"
    );
    assert_eq!(
        rendered("a.pkl", ran(false, b"", b"\n bad \xff\n")).unwrap_err().message(),
        "pkl rejected a.pkl:\nbad \u{fffd}"
    );
    assert_eq!(
        rendered("r/a.pkl", PklRun::Missing).unwrap_err().message(),
        "r/a.pkl is a Pkl recipe but the `pkl` CLI is not installed \
         (see https://pkl-lang.org/main/current/pkl-cli/), or build the \
         generated a.yaml instead"
    );
    assert_eq!(
        rendered(
            "a.pkl",
            PklRun::Failed {
                cause: "denied".to_string()
            }
        )
        .unwrap_err()
        .message(),
        "running pkl: denied"
    );
}

#[test]
fn recipes_have_defaults() {
    assert_eq!(default_src_dir(), "src");
    assert_eq!(default_strip_components(), 1);
    assert!(Dependencies::default().apt.is_empty());
    assert!(Verify::default().pie.is_empty());
    assert_eq!(Format::TarXz.extension(), "tar.xz");
    assert_eq!(Format::TarGz.extension(), "tar.gz");
    assert_eq!(Format::Zip.extension(), "zip");
}
