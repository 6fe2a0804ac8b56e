use pie::json::Json;
use pie::recipe::{Resolver, VersionSpec};
use pie::resolve::{
    authorization, is_plain_version, resolve, scrape_version_dirs, select_node, select_php,
    shortlist, version_key, GithubRelease, NodeRelease, Progress, ResolveError, Resolved,
};

#[test]
fn scrapes_version_directories_newest_first() {
    let html = r#"
            <a href="../">../</a>
            <a href="3.12.7/">3.12.7/</a>
            <a href="3.13.0/">3.13.0/</a>
            <a href="3.9.20/">3.9.20/</a>
            <a href="3.12.0a1/">3.12.0a1/</a>
            <a href="README.txt">README</a>
            <a href="doc/">doc/</a>
        "#;
    // Newest first, prereleases excluded, and 3.12 must outrank 3.9.
    assert_eq!(
        scrape_version_dirs(html, ""),
        vec!["3.13.0", "3.12.7", "3.9.20"]
    );
}

#[test]
fn scrapes_prefixed_directories() {
    let html = r#"<a href="v17.2/">v17.2/</a><a href="v16.6/">v16.6/</a><a href="README/">x</a>"#;
    assert_eq!(scrape_version_dirs(html, "v"), vec!["17.2", "16.6"]);
    // Without the prefix declared, nothing matches.
    assert!(scrape_version_dirs(html, "").is_empty());
}

#[test]
fn scrapes_name_prefixed_directories() {
    let html = r#"<a href="mariadb-11.4.4/">x</a><a href="mariadb-11.5.0-rc/">x</a>"#;
    assert_eq!(scrape_version_dirs(html, "mariadb-"), vec!["11.4.4"]);
}

#[test]
fn version_key_orders_numerically_not_lexically() {
    assert!(version_key("1.10.0") > version_key("1.9.0"));
    assert!(version_key("17.2") > version_key("9.6.24"));
    assert_eq!(version_key("3.12"), [3, 12, 0, 0]);
}

fn node_catalogue() -> Vec<(String, bool)> {
    // Ordered newest first, exactly as nodejs.org/dist/index.json is.
    vec![
        ("v23.3.0".to_string(), false),
        ("v22.11.0".to_string(), true),
        ("v20.18.0".to_string(), true),
    ]
}

#[test]
fn node_latest_takes_the_newest_release() {
    assert_eq!(select_node(&node_catalogue(), "latest").unwrap(), "v23.3.0");
}

#[test]
fn node_lts_skips_current() {
    // v23.3.0 is newer but not LTS, so it must not be chosen.
    assert_eq!(select_node(&node_catalogue(), "lts").unwrap(), "v22.11.0");
}

#[test]
fn node_accepts_every_spelling_of_a_version() {
    for request in ["22.11.0", "v22.11.0", "node-v22.11.0"] {
        assert_eq!(
            select_node(&node_catalogue(), request).unwrap(),
            "v22.11.0",
            "failed for {request}"
        );
    }
}

#[test]
fn node_rejects_an_unpublished_version() {
    let err = select_node(&node_catalogue(), "22.11.1").unwrap_err();
    assert!(err.message().contains("not an official"));
}

#[test]
fn node_rejects_an_empty_index() {
    assert!(select_node(&[], "latest").is_err());
}

fn text(value: &str) -> Json {
    Json::Text(value.to_string())
}

fn object(entries: Vec<(&str, Json)>) -> Json {
    Json::Object(
        entries
            .into_iter()
            .map(|(key, value)| (key.to_string(), value))
            .collect(),
    )
}

fn archive(name: &str, digest: &str) -> Json {
    object(vec![("filename", text(name)), ("sha256", text(digest))])
}

fn php_index() -> Vec<(String, Json)> {
    let raw = object(vec![
        (
            "8.4.2",
            object(vec![(
                "source",
                Json::Array(vec![
                    archive("php-8.4.2.tar.gz", "gz-digest"),
                    archive("php-8.4.2.tar.xz", "xz-digest"),
                ]),
            )]),
        ),
        (
            "8.3.15",
            object(vec![(
                "source",
                Json::Array(vec![archive("php-8.3.15.tar.xz", "older-digest")]),
            )]),
        ),
        (
            "8.3.14",
            object(vec![(
                "source",
                Json::Array(vec![archive("php-8.3.14.tar.xz", "oldest-digest")]),
            )]),
        ),
    ]);
    match raw {
        Json::Object(entries) => entries,
        _ => unreachable!(),
    }
}

#[test]
fn php_latest_picks_the_highest_version_not_the_first_key() {
    let (version, digest) = select_php(&php_index(), "latest").unwrap();
    assert_eq!(version, "8.4.2");
    // The .tar.xz digest, not the .tar.gz one that precedes it.
    assert_eq!(digest.as_deref(), Some("xz-digest"));
}

#[test]
fn php_series_picks_the_newest_patch_in_that_series() {
    let (version, digest) = select_php(&php_index(), "8.3").unwrap();
    assert_eq!(version, "8.3.15");
    assert_eq!(digest.as_deref(), Some("older-digest"));
}

#[test]
fn php_exact_version_is_honoured() {
    let (version, _) = select_php(&php_index(), "8.3.14").unwrap();
    assert_eq!(version, "8.3.14");
}

#[test]
fn php_rejects_an_unpublished_version() {
    assert!(select_php(&php_index(), "8.9.9").is_err());
    assert!(select_php(&php_index(), "not-a-version").is_err());
}

fn strings(items: &[&str]) -> Vec<String> {
    items.iter().map(|s| s.to_string()).collect()
}

#[test]
fn shortlist_filters_and_preserves_order() {
    let candidates = strings(&["3.13.1", "3.13.0", "3.12.7", "3.12.1"]);
    assert_eq!(shortlist(candidates.clone(), "latest").len(), 4);
    assert_eq!(
        shortlist(candidates.clone(), "3.12"),
        strings(&["3.12.7", "3.12.1"])
    );
    assert_eq!(
        shortlist(candidates.clone(), "3.13.0"),
        strings(&["3.13.0"])
    );
    assert!(shortlist(candidates, "rubbish").is_empty());
}

/// "3.1" must not match "3.12.7"; the series filter is dot-delimited.
#[test]
fn shortlist_does_not_match_partial_components() {
    let candidates = strings(&["3.12.7", "3.1.5"]);
    assert_eq!(shortlist(candidates, "3.1"), strings(&["3.1.5"]));
}

#[test]
fn shortlist_handles_two_component_versions() {
    let candidates = strings(&["17.2", "17.1", "16.6"]);
    assert_eq!(
        shortlist(candidates.clone(), "17"),
        strings(&["17.2", "17.1"])
    );
    assert_eq!(shortlist(candidates, "17.1"), strings(&["17.1"]));
}

#[test]
fn recognises_plain_versions_only() {
    assert!(is_plain_version("3.12.7"));
    assert!(is_plain_version("17.2"));
    assert!(is_plain_version("1.2.3.4"));
    assert!(!is_plain_version("8"));
    assert!(!is_plain_version("3.12.0rc1"));
    assert!(!is_plain_version("11.5.0-rc"));
    assert!(!is_plain_version("latest"));
    assert!(!is_plain_version("3..1"));
}

// -- selection, further ------------------------------------------------------

#[test]
fn selection_errors_in_words() {
    assert_eq!(
        select_node(&[], "latest").unwrap_err().message(),
        "the release index listed no versions"
    );
    assert_eq!(
        select_node(&[("v1.0.0".to_string(), false)], "lts")
            .unwrap_err()
            .message(),
        "no LTS release found in the index"
    );
    assert_eq!(
        select_node(&node_catalogue(), "node-22.11.1")
            .unwrap_err()
            .message(),
        "'v22.11.1' is not an official Node.js release"
    );
    assert_eq!(
        select_php(&php_index(), "php-v9").unwrap_err().message(),
        "'9' does not match any official PHP release"
    );
}

#[test]
fn equal_versions_are_listed_once_and_in_page_order() {
    let html = r#"href="a/1.2/" href="1.2/" href="1.2.0/" href="01.2/" href="1.2" href="1.3/"#;
    assert_eq!(
        scrape_version_dirs(html, ""),
        vec!["1.2", "1.2.0", "01.2"]
    );
}

#[test]
fn only_directories_of_the_same_level_are_scraped() {
    for target in [
        "/ftp/3.12.7/",
        "/3.12.7/",
        "//3.12.7/",
        "https://example.org/3.12.7/",
        "../3.12.7/",
        "./../3.12.7/",
        "a/../../3.12.7/",
        "../a/3.12.7/",
        "a/3.12.7/",
        "./a/3.12.7/",
        "3.12.7/./",
        "./3.12.7",
    ] {
        let html = format!("<a href=\"{target}\">x</a>");
        assert!(scrape_version_dirs(&html, "").is_empty(), "{target}");
    }
    for target in ["3.12.7/", "./3.12.7/", "././3.12.7/", ".//3.12.7/", "a/../3.12.7/"] {
        let html = format!("<a href=\"{target}\">x</a>");
        assert_eq!(scrape_version_dirs(&html, ""), vec!["3.12.7"], "{target}");
    }
    assert_eq!(scrape_version_dirs(r#"<a href="./v17.2/">x</a>"#, "v"), vec!["17.2"]);
    let html = r#"<a href="/ftp/3.13.0/">x</a><a href="3.12.7/">x</a>"#;
    assert_eq!(scrape_version_dirs(html, ""), vec!["3.12.7"]);
}

#[test]
fn version_keys_take_what_is_no_number_for_zero() {
    assert_eq!(version_key("1.x.3.4.5"), [1, 0, 3, 4]);
    assert_eq!(version_key("4294967296.4294967295"), [0, 4294967295, 0, 0]);
    assert_eq!(version_key("+7.-1"), [7, 0, 0, 0]);
    assert_eq!(version_key(""), [0, 0, 0, 0]);
}

#[test]
fn php_release_without_a_digest_is_still_resolved() {
    let index = vec![
        ("8.1.0".to_string(), object(vec![("source", Json::Null)])),
        ("8".to_string(), Json::Null),
    ];
    let (version, digest) = select_php(&index, "latest").unwrap();
    assert_eq!(version, "8.1.0");
    assert_eq!(digest, None);
}

// -- resolution --------------------------------------------------------------

fn spec(resolver: Resolver) -> VersionSpec {
    VersionSpec {
        resolver,
        index: None,
        listing: None,
        probe: None,
        dir_prefix: None,
        repo: None,
        tag_prefix: None,
        tags: false,
        aliases: vec![],
    }
}

fn done(progress: Progress) -> Resolved {
    match progress {
        Progress::Done(resolved) => resolved,
        other => panic!("{other:?}"),
    }
}

fn failed(progress: Progress) -> ResolveError {
    match progress {
        Progress::Failed(error) => error,
        other => panic!("{other:?}"),
    }
}

#[test]
fn resolvers_need_their_settings() {
    for (resolver, words) in [
        (
            Resolver::Nodejs,
            "recipe uses the nodejs resolver but sets no `version.index`",
        ),
        (
            Resolver::Directory,
            "recipe uses the directory resolver but sets no `version.listing`",
        ),
        (
            Resolver::Github,
            "recipe uses the github resolver but sets no `version.repo`",
        ),
        (
            Resolver::Php,
            "recipe uses the php resolver but sets no `version.listing`",
        ),
    ] {
        assert_eq!(failed(resolve(&spec(resolver), "latest")).message(), words);
    }
    let mut directory = spec(Resolver::Directory);
    directory.listing = Some("https://l/".to_string());
    assert_eq!(
        failed(resolve(&directory, "latest")).message(),
        "recipe uses the directory resolver but sets no `version.probe`"
    );
}

fn node_query() -> pie::resolve::NodeQuery {
    let mut node = spec(Resolver::Nodejs);
    node.index = Some("https://n/index.json".to_string());
    match resolve(&node, "lts") {
        Progress::NodeIndex(query) => query,
        other => panic!("{other:?}"),
    }
}

#[test]
fn resolves_against_the_node_index() {
    let query = node_query();
    assert_eq!(query.url, "https://n/index.json");
    let releases = vec![
        NodeRelease {
            version: "v23.3.0".to_string(),
            lts: Json::Bool(false),
        },
        NodeRelease {
            version: "v22.11.0".to_string(),
            lts: text("Jod"),
        },
    ];
    let resolved = done(query.answer(&releases));
    assert_eq!(resolved.version, "v22.11.0");
    assert_eq!(resolved.bare, "22.11.0");
    assert_eq!(resolved.upstream_tag, None);

    assert_eq!(
        failed(node_query().answer(&vec![])).message(),
        "https://n/index.json listed no releases"
    );
    assert_eq!(
        failed(node_query().answer(&vec![NodeRelease {
            version: "v23.3.0".to_string(),
            lts: Json::Bool(false),
        }]))
        .message(),
        "see https://n/index.json: no LTS release found in the index"
    );
    assert_eq!(
        node_query().unreachable("timed out".to_string()).message(),
        "fetching https://n/index.json: timed out"
    );
    assert_eq!(
        node_query().unreadable("not JSON".to_string()).message(),
        "parsing https://n/index.json: not JSON"
    );
}

fn listing_query(request: &str) -> pie::resolve::ListingQuery {
    let mut directory = spec(Resolver::Directory);
    directory.listing = Some("https://l/".to_string());
    directory.probe = Some("https://l/v{{candidate}}/src-{{ candidate }}.tar.gz".to_string());
    directory.dir_prefix = Some("v".to_string());
    match resolve(&directory, request) {
        Progress::Listing(query) => query,
        other => panic!("{other:?}"),
    }
}

#[test]
fn directory_candidates_are_asked_for_newest_first() {
    let html = r#"<a href="v17.2/"><a href="v17.10/"><a href="v16.6/">"#;
    let first = match listing_query("v17").answer(html) {
        Progress::Probe(query) => query,
        other => panic!("{other:?}"),
    };
    assert_eq!(first.url, "https://l/v17.10/src-17.10.tar.gz");
    let second = match first.answer(false) {
        Progress::Probe(query) => query,
        other => panic!("{other:?}"),
    };
    assert_eq!(second.url, "https://l/v17.2/src-17.2.tar.gz");
    assert_eq!(second.candidate, "17.2");
    let resolved = done(second.answer(true));
    assert_eq!(resolved.version, "17.2");
    assert_eq!(resolved.bare, "17.2");
}

#[test]
fn directory_errors_in_words() {
    assert_eq!(
        failed(listing_query("17").answer("nothing here")).message(),
        "no version directories found in https://l/"
    );
    assert_eq!(
        failed(listing_query("v18").answer(r#"href="v17.2/""#)).message(),
        "'18' does not match any published release (see https://l/)"
    );
    let only = match listing_query("17").answer(r#"href="v17.2/""#) {
        Progress::Probe(query) => query,
        other => panic!("{other:?}"),
    };
    assert_eq!(
        failed(only.answer(false)).message(),
        "no published source archive found for '17'"
    );
    assert_eq!(
        listing_query("17").unreachable("refused".to_string()).message(),
        "fetching https://l/: refused"
    );
    assert_eq!(
        listing_query("17").unreadable("cut off".to_string()).message(),
        "cut off"
    );
    let mut bad = listing_query("17");
    bad.probe = "{{version}}".to_string();
    assert_eq!(
        failed(bad.answer(r#"href="v17.2/""#)).message(),
        "unknown template variable '{{version}}' (known: candidate)"
    );
}

#[test]
fn no_more_than_twenty_candidates_are_asked_for() {
    let html: String = (0..30).map(|i| format!("href=\"v1.{i}/\"")).collect();
    let mut progress = listing_query("latest").answer(&html);
    let mut asked = Vec::new();
    while let Progress::Probe(query) = progress {
        asked.push(query.candidate.clone());
        progress = query.answer(false);
    }
    assert_eq!(asked.len(), 20);
    assert_eq!(asked[0], "1.29");
    assert_eq!(asked[19], "1.10");
    assert_eq!(
        failed(progress).message(),
        "no published source archive found for 'latest'"
    );
}

fn github(prefix: Option<&str>, tags: bool) -> VersionSpec {
    let mut github = spec(Resolver::Github);
    github.repo = Some("o/r".to_string());
    github.tag_prefix = prefix.map(str::to_string);
    github.tags = tags;
    github
}

fn release(tag: &str, draft: bool, prerelease: bool) -> GithubRelease {
    GithubRelease {
        tag_name: tag.to_string(),
        draft,
        prerelease,
    }
}

#[test]
fn github_latest_is_what_github_says() {
    let query = match resolve(&github(Some("bun-v"), false), "latest") {
        Progress::LatestRelease(query) => query,
        other => panic!("{other:?}"),
    };
    assert_eq!(query.url, "https://api.github.com/repos/o/r/releases/latest");
    let resolved = done(query.answer(release("bun-v1.3.14", false, false)));
    assert_eq!(resolved.version, "1.3.14");
    assert_eq!(resolved.bare, "1.3.14");
    assert_eq!(resolved.upstream_tag.as_deref(), Some("bun-v1.3.14"));
}

#[test]
fn github_releases_are_asked_for_by_tag() {
    for request in ["1.2.3", "v1.2.3", "bun-v1.2.3"] {
        let query = match resolve(&github(Some("bun-v"), false), request) {
            Progress::TaggedRelease(query) => query,
            other => panic!("{other:?}"),
        };
        assert_eq!(
            query.url,
            "https://api.github.com/repos/o/r/releases/tags/bun-v1.2.3"
        );
        assert_eq!(query.remark(&release("bun-v1.2.3", false, false)), None);
        assert_eq!(query.remark(&release("bun-v1.2.3", true, true)), None);
        assert_eq!(
            query.remark(&release("bun-v1.2.3", false, true)).as_deref(),
            Some("note: bun-v1.2.3 is marked as a prerelease upstream")
        );
        let resolved = done(query.answer(release("bun-v1.2.3", false, true)));
        assert_eq!(resolved.version, "1.2.3");
    }
}

#[test]
fn github_errors_in_words() {
    let query = || match resolve(&github(None, false), "1.2.3") {
        Progress::TaggedRelease(query) => query,
        other => panic!("{other:?}"),
    };
    assert_eq!(
        failed(query().answer(release("v1.2.3", true, false))).message(),
        "'v1.2.3' is a draft release of o/r"
    );
    assert_eq!(
        query().unreachable("404".to_string()).message(),
        "'v1.2.3' is not an official release of o/r (see https://github.com/o/r/releases): 404"
    );
    assert_eq!(query().unreadable("bad".to_string()).message(), "bad");
    let tag = match resolve(&github(None, true), "1.2.3") {
        Progress::TagRef(query) => query,
        other => panic!("{other:?}"),
    };
    assert_eq!(tag.url, "https://api.github.com/repos/o/r/git/ref/tags/v1.2.3");
    assert_eq!(
        tag.unreachable("404".to_string()).message(),
        "'v1.2.3' is not a tag of o/r (see https://github.com/o/r/tags): 404"
    );
}

fn tag_page(names: &[&str]) -> Vec<Json> {
    names
        .iter()
        .map(|name| object(vec![("name", text(name))]))
        .collect()
}

fn tag_query() -> pie::resolve::TagPageQuery {
    match resolve(&github(Some("r"), true), "latest") {
        Progress::TagPage(query) => query,
        other => panic!("{other:?}"),
    }
}

#[test]
fn newest_tag_is_found_over_several_pages() {
    let first = tag_query();
    assert_eq!(
        first.url,
        "https://api.github.com/repos/o/r/tags?per_page=100&page=1"
    );
    let second = match first.answer(&tag_page(&["r7.0.2", "r8.0.0-rc1", "other"])) {
        Progress::TagPage(query) => query,
        other => panic!("{other:?}"),
    };
    assert_eq!(
        second.url,
        "https://api.github.com/repos/o/r/tags?per_page=100&page=2"
    );
    let third = match second.answer(&tag_page(&["r7.0.10"])) {
        Progress::TagPage(query) => query,
        other => panic!("{other:?}"),
    };
    let resolved = done(third.answer(&tag_page(&["r7.0.9"])));
    assert_eq!(resolved.version, "7.0.10");
    assert_eq!(resolved.upstream_tag.as_deref(), Some("r7.0.10"));
}

#[test]
fn an_empty_page_of_tags_is_the_last() {
    let second = match tag_query().answer(&tag_page(&["r1.2"])) {
        Progress::TagPage(query) => query,
        other => panic!("{other:?}"),
    };
    assert_eq!(done(second.answer(&vec![])).version, "1.2");
    assert_eq!(
        failed(tag_query().answer(&vec![])).message(),
        "no version tags found on o/r with prefix 'r'"
    );
    assert_eq!(
        tag_query().unreachable("refused".to_string()).message(),
        "fetching https://api.github.com/repos/o/r/tags?per_page=100&page=1: refused"
    );
}

#[test]
fn existing_tags_resolve_to_themselves() {
    let tag = match resolve(&github(Some("r"), true), "7.0.2") {
        Progress::TagRef(query) => query,
        other => panic!("{other:?}"),
    };
    let resolved = done(tag.answer());
    assert_eq!(resolved.bare, "7.0.2");
    assert_eq!(resolved.upstream_tag.as_deref(), Some("r7.0.2"));
}

#[test]
fn resolves_against_the_php_index() {
    let mut php = spec(Resolver::Php);
    php.listing = Some("https://p/".to_string());
    let query = || match resolve(&php, "8.3") {
        Progress::PhpIndex(query) => query,
        other => panic!("{other:?}"),
    };
    let resolved = done(query().answer(&php_index()));
    assert_eq!(resolved.version, "8.3.15");
    assert_eq!(resolved.source_sha256.as_deref(), Some("older-digest"));
    assert_eq!(
        failed(query().answer(&vec![])).message(),
        "see https://p/: '8.3' does not match any official PHP release"
    );
    assert_eq!(
        query().unreachable("refused".to_string()).message(),
        "fetching https://p/: refused"
    );
    assert_eq!(
        query().unreadable("bad".to_string()).message(),
        "parsing https://p/: bad"
    );
}

#[test]
fn tokens_are_sent_when_there_is_one() {
    let some = |text: &str| Some(text.to_string());
    assert_eq!(authorization(None, None), None);
    assert_eq!(authorization(some("a"), some("b")), some("Bearer a"));
    assert_eq!(authorization(None, some("b")), some("Bearer b"));
    assert_eq!(authorization(some(""), some("b")), None);
}
