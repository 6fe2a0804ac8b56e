//! Picking a version out of a release index.

use crate::json::{lookup, Json};
use crate::text::{
    begins_with, chars_of, find_from, finishes_with, same_chars, same_text, split_on, string_of,
    trim_start_matches,
};
use crate::version::{dedup, is_plain_version, newest_first, shortlist};
use vstd::prelude::*;
use vstd::slice::slice_subrange;
use vstd::string::*;

verus! {

/// Why an index holds no version that answers a request.
#[derive(Debug)]
pub enum SelectError {
    /// The index is empty.
    EmptyIndex,
    /// The index holds no long term support release.
    NoLts,
    /// There is no such Node.js release.
    NotNode { wanted: String },
    /// No PHP release answers the request.
    NotPhp { request: String },
}

/// The model of `SelectError`.
pub enum Refusal {
    EmptyIndex,
    NoLts,
    NotNode(Seq<char>),
    NotPhp(Seq<char>),
}

impl View for SelectError {
    type V = Refusal;

    open spec fn view(&self) -> Refusal {
        match self {
            SelectError::EmptyIndex => Refusal::EmptyIndex,
            SelectError::NoLts => Refusal::NoLts,
            SelectError::NotNode { wanted } => Refusal::NotNode(wanted@),
            SelectError::NotPhp { request } => Refusal::NotPhp(request@),
        }
    }
}

impl SelectError {
    /// The error in words.
    pub open spec fn words(self) -> Seq<char> {
        match self {
            SelectError::EmptyIndex => "the release index listed no versions"@,
            SelectError::NoLts => "no LTS release found in the index"@,
            SelectError::NotNode { wanted } => "'"@ + wanted@
                + "' is not an official Node.js release"@,
            SelectError::NotPhp { request } => "'"@ + request@
                + "' does not match any official PHP release"@,
        }
    }

    /// The error in words.
    pub fn message(&self) -> (text: String)
        ensures
            text@ == self.words(),
    {
        match self {
            SelectError::EmptyIndex => "the release index listed no versions".to_owned(),
            SelectError::NoLts => "no LTS release found in the index".to_owned(),
            SelectError::NotNode { wanted } => {
                let mut text = "'".to_owned();
                text.append(wanted.as_str());
                text.append("' is not an official Node.js release");
                text
            },
            SelectError::NotPhp { request } => {
                let mut text = "'".to_owned();
                text.append(request.as_str());
                text.append("' does not match any official PHP release");
                text
            },
        }
    }
}

/// `text` without as many leading copies of `prefix` as there are.
pub fn strip_all(text: &str, prefix: &str) -> (rest: String)
    ensures
        rest@ == crate::text::without_prefixes(text@, prefix@),
{
    let chars = chars_of(text);
    let prefix_chars = chars_of(prefix);
    string_of(trim_start_matches(&chars, &prefix_chars))
}

// -- nodejs.org/dist/index.json ----------------------------------------------

/// The versions of an index, and whether each has long term support.
pub open spec fn releases_of(releases: Seq<(String, bool)>) -> Seq<(Seq<char>, bool)> {
    releases.map_values(|release: (String, bool)| (release.0@, release.1))
}

/// The first release, from `from` on, that has long term support.
pub open spec fn first_lts(releases: Seq<(Seq<char>, bool)>, from: int) -> Option<Seq<char>>
    decreases releases.len() - from,
{
    if from < 0 || from >= releases.len() {
        None
    } else if releases[from].1 {
        Some(releases[from].0)
    } else {
        first_lts(releases, from + 1)
    }
}

/// `version` is among the releases.
pub open spec fn is_listed(releases: Seq<(Seq<char>, bool)>, version: Seq<char>) -> bool {
    exists|i: int| 0 <= i < releases.len() && (#[trigger] releases[i]).0 == version
}

/// The official spelling of a requested Node.js version.
pub open spec fn node_spelling(request: Seq<char>) -> Seq<char> {
    "v"@ + crate::text::without_prefixes(request, "v"@)
}

/// The Node.js version that answers a request: the newest for `latest`, the
/// newest with long term support for `lts`, and otherwise the version itself,
/// which has to be listed.
pub open spec fn selected_node(releases: Seq<(Seq<char>, bool)>, request: Seq<char>) -> Result<
    Seq<char>,
    Refusal,
> {
    let request = crate::text::without_prefixes(request, "node-"@);
    if releases.len() == 0 {
        Err(Refusal::EmptyIndex)
    } else if request == "latest"@ {
        Ok(releases[0].0)
    } else if request == "lts"@ {
        match first_lts(releases, 0) {
            Some(version) => Ok(version),
            None => Err(Refusal::NoLts),
        }
    } else if is_listed(releases, node_spelling(request)) {
        Ok(node_spelling(request))
    } else {
        Err(Refusal::NotNode(node_spelling(request)))
    }
}

/// Picks a Node.js version out of the release index, which is newest first.
#[verifier::loop_isolation(false)]
pub fn select_node(releases: &[(String, bool)], request: &str) -> (version: Result<
    String,
    SelectError,
>)
    ensures
        match version {
            Ok(version) => selected_node(releases_of(releases@), request@) == Ok::<
                Seq<char>,
                Refusal,
            >(version@),
            Err(error) => selected_node(releases_of(releases@), request@) == Err::<
                Seq<char>,
                Refusal,
            >(error@),
        },
{
    let ghost all = releases_of(releases@);
    if releases.len() == 0 {
        return Err(SelectError::EmptyIndex);
    }
    let asked = strip_all(request, "node-");
    if same_text(asked.as_str(), "latest") {
        assert(all[0].0 == releases@[0].0@);
        return Ok(releases[0].0.clone());
    }
    if same_text(asked.as_str(), "lts") {
        let mut i: usize = 0;
        while i < releases.len()
            invariant
                i <= releases@.len(),
                all == releases_of(releases@),
                first_lts(all, 0) == first_lts(all, i as int),
            decreases releases@.len() - i,
        {
            assert(all[i as int] == (releases@[i as int].0@, releases@[i as int].1));
            if releases[i].1 {
                return Ok(releases[i].0.clone());
            }
            i += 1;
        }
        return Err(SelectError::NoLts);
    }
    let mut wanted = "v".to_owned();
    wanted.append(strip_all(asked.as_str(), "v").as_str());
    let mut i: usize = 0;
    while i < releases.len()
        invariant
            i <= releases@.len(),
            all == releases_of(releases@),
            forall|j: int| 0 <= j < i ==> (#[trigger] all[j]).0 != wanted@,
        decreases releases@.len() - i,
    {
        assert(all[i as int].0 == releases@[i as int].0@);
        if same_text(releases[i].0.as_str(), wanted.as_str()) {
            return Ok(wanted);
        }
        i += 1;
    }
    Err(SelectError::NotNode { wanted })
}

/// A release as nodejs.org lists it.
#[derive(Debug)]
pub struct NodeRelease {
    pub version: String,
    /// The name of the long term support line, or `false`.
    pub lts: Json,
}

/// Anything but `false` marks a release with long term support.
pub open spec fn has_lts(release: NodeRelease) -> bool {
    release.lts != Json::Bool(false)
}

/// The releases of an index, as they are selected from.
pub fn catalogue(releases: &Vec<NodeRelease>) -> (list: Vec<(String, bool)>)
    ensures
        releases_of(list@) == releases@.map_values(
            |release: NodeRelease| (release.version@, has_lts(release)),
        ),
{
    let mut list: Vec<(String, bool)> = Vec::new();
    let mut i: usize = 0;
    while i < releases.len()
        invariant
            i <= releases@.len(),
            list@.len() == i,
            forall|j: int|
                0 <= j < i ==> (#[trigger] list@[j]).0@ == releases@[j].version@ && list@[j].1
                    == has_lts(releases@[j]),
        decreases releases@.len() - i,
    {
        let lts = match &releases[i].lts {
            Json::Bool(false) => false,
            _ => true,
        };
        list.push((releases[i].version.clone(), lts));
        i += 1;
    }
    assert(releases_of(list@) =~= releases@.map_values(
        |release: NodeRelease| (release.version@, has_lts(release)),
    ));
    list
}

// -- directory listings (python.org, postgresql.org, archive.mariadb.org) ------

/// What stands before the target of a link.
pub open spec fn link_mark() -> Seq<char> {
    seq!['h', 'r', 'e', 'f', '=', '"']
}

/// How many levels below the page the steps of a link lead: none where they stay in
/// place, as no step, `.` and `a/..` do. It is nothing where the link is absolute, as
/// one that begins with an empty step, or where it leads up from the page.
pub open spec fn depth_of(steps: Seq<Seq<char>>) -> Option<nat>
    decreases steps.len(),
{
    if steps.len() == 0 {
        Some(0)
    } else {
        match depth_of(steps.drop_last()) {
            None => None,
            Some(depth) => if steps.len() == 1 && steps[0].len() == 0 {
                None
            } else if !crate::path::is_name(steps.last()) {
                Some(depth)
            } else if steps.last() != seq!['.', '.'] {
                Some(depth + 1)
            } else if depth > 0 {
                Some((depth - 1) as nat)
            } else {
                None
            },
        }
    }
}

/// The version whose directory a link leads to. `chunk` begins with the target of
/// the link, which is a directory named `prefix` and the version. Only same-level
/// directories count: the steps before the name stay in place.
pub open spec fn linked_version(chunk: Seq<char>, prefix: Seq<char>) -> Option<Seq<char>> {
    match crate::text::first(chunk, seq!['"']) {
        None => None,
        Some(end) => {
            let target = chunk.take(end);
            let steps = crate::text::split(target.drop_last(), seq!['/']);
            let name = steps.last();
            let version = name.skip(prefix.len() as int);
            if target.len() > 0 && target.last() == '/' && depth_of(steps.drop_last()) == Some(0nat)
                && prefix.is_prefix_of(name) && crate::version::is_plain(version) {
                Some(version)
            } else {
                None
            }
        },
    }
}

/// The versions whose directories a page links to, in the order of the links.
pub open spec fn linked_versions(html: Seq<char>, prefix: Seq<char>) -> Seq<Seq<char>> {
    crate::text::split(html, link_mark()).skip(1).filter_map(
        |chunk: Seq<char>| linked_version(chunk, prefix),
    )
}

/// The versions whose directories a page links to, newest first.
pub open spec fn published_versions(html: Seq<char>, prefix: Seq<char>) -> Seq<Seq<char>> {
    crate::version::without_repeats(
        crate::version::newest_first_of(linked_versions(html, prefix)),
    )
}

/// How many levels below the page the steps of a link lead.
fn depth(steps: &[&[char]]) -> (depth: Option<usize>)
    ensures
        match depth_of(crate::text::pieces(steps@)) {
            Some(levels) => depth matches Some(found) && found == levels,
            None => depth is None,
        },
{
    let here: [char; 1] = ['.'];
    let up: [char; 2] = ['.', '.'];
    assert(here@ =~= seq!['.']);
    assert(up@ =~= seq!['.', '.']);
    let ghost all = crate::text::pieces(steps@);
    let mut found: Option<usize> = Some(0);
    let mut i: usize = 0;
    while i < steps.len()
        invariant
            i <= steps@.len(),
            all == crate::text::pieces(steps@),
            here@ == seq!['.'],
            up@ == seq!['.', '.'],
            match depth_of(all.take(i as int)) {
                Some(levels) => found matches Some(depth) && depth == levels && depth <= i,
                None => found is None,
            },
        decreases steps@.len() - i,
    {
        let step = steps[i];
        assert(all.take(i + 1).drop_last() =~= all.take(i as int));
        assert(all.take(i + 1).last() == step@);
        found = match found {
            None => None,
            Some(depth) => if i == 0 && step.len() == 0 {
                None
            } else if step.len() == 0 || same_chars(step, &here) {
                Some(depth)
            } else if !same_chars(step, &up) {
                Some(depth + 1)
            } else if depth > 0 {
                Some(depth - 1)
            } else {
                None
            },
        };
        i += 1;
    }
    assert(all.take(i as int) =~= all);
    found
}

/// The version whose directory a link leads to.
fn link_version(chunk: &[char], prefix: &[char]) -> (version: Option<String>)
    ensures
        crate::text::text_of(version) == linked_version(chunk@, prefix@),
{
    let quote: [char; 1] = ['"'];
    assert(quote@ =~= seq!['"']);
    proof {
        crate::text::lemma_first_char(chunk@, '"');
    }
    let end = match find_from(chunk, &quote, 0) {
        Some(end) => end,
        None => {
            return None;
        },
    };
    let target = slice_subrange(chunk, 0, end);
    if target.len() == 0 || target[target.len() - 1] != '/' {
        return None;
    }
    let trimmed = slice_subrange(target, 0, target.len() - 1);
    assert(trimmed@ =~= target@.drop_last());
    let slash: [char; 1] = ['/'];
    assert(slash@ =~= seq!['/']);
    let steps = split_on(trimmed, &slash);
    proof {
        crate::text::lemma_split_pieces(trimmed@, '/');
        assert(crate::text::pieces(steps@).len() == steps@.len());
    }
    let before = slice_subrange(steps.as_slice(), 0, steps.len() - 1);
    assert(crate::text::pieces(before@) =~= crate::text::pieces(steps@).drop_last());
    // Ignore absolute or parent links; only same-level directories count.
    match depth(before) {
        Some(0) => {},
        _ => {
            return None;
        },
    }
    let name = steps[steps.len() - 1];
    if !begins_with(name, prefix) {
        return None;
    }
    let version = string_of(slice_subrange(name, prefix.len(), name.len()));
    if is_plain_version(version.as_str()) {
        Some(version)
    } else {
        None
    }
}

/// Pulls `href="3.12.7/"` (or `href="v17.2/"`, `href="mariadb-11.4.4/"`) out of
/// an autoindex page, newest first.
pub fn scrape_version_dirs(html: &str, prefix: &str) -> (versions: Vec<String>)
    ensures
        crate::text::texts(versions@) == published_versions(html@, prefix@),
        crate::version::descends(crate::text::texts(versions@)),
        forall|version: Seq<char>| #[trigger]
            crate::text::texts(versions@).contains(version) ==> crate::version::is_plain(version)
                && linked_versions(html@, prefix@).contains(version),
{
    let chars = chars_of(html);
    let prefix_chars = chars_of(prefix);
    let mark: [char; 6] = ['h', 'r', 'e', 'f', '=', '"'];
    assert(mark@ =~= link_mark());
    let chunks = split_on(&chars, &mark);
    let ghost all = crate::text::split(html@, link_mark());
    let ghost pick = |chunk: Seq<char>| linked_version(chunk, prefix@);
    let mut found: Vec<String> = Vec::new();
    let mut i: usize = 1;
    assert(chunks@.len() == all.len());
    assert(all.len() > 0) by {
        reveal_with_fuel(crate::text::split, 1);
    }
    assert(all.skip(1).take(0).filter_map(pick) =~= crate::text::texts(found@));
    while i < chunks.len()
        invariant
            1 <= i <= chunks@.len(),
            chunks@.len() == all.len(),
            crate::text::pieces(chunks@) == all,
            prefix_chars@ == prefix@,
            pick == (|chunk: Seq<char>| linked_version(chunk, prefix@)),
            crate::text::texts(found@) == all.skip(1).take(i - 1).filter_map(pick),
            forall|j: int|
                0 <= j < found@.len() ==> crate::version::is_plain(#[trigger] found@[j]@),
        decreases chunks@.len() - i,
    {
        let ghost before = crate::text::texts(found@);
        let version = link_version(chunks[i], &prefix_chars);
        proof {
            all.skip(1).lemma_filter_map_take_succ(pick, i - 1);
            assert(all.skip(1)[i - 1] == chunks@[i as int]@);
        }
        match version {
            Some(version) => {
                found.push(version);
                assert(crate::text::texts(found@) =~= before + seq![version@]);
            },
            None => {},
        }
        i += 1;
        assert(crate::text::texts(found@) =~= all.skip(1).take(i - 1).filter_map(pick));
    }
    assert(all.skip(1).take(i - 1) =~= all.skip(1));
    let sorted = newest_first(&found);
    let out = dedup(&sorted);
    proof {
        let links = linked_versions(html@, prefix@);
        let ordered = crate::text::texts(sorted@);
        crate::version::law_without_repeats_keeps_order(ordered);
        assert forall|version: Seq<char>| #[trigger]
            crate::text::texts(out@).contains(version) implies crate::version::is_plain(version)
            && links.contains(version) by {
            assert(ordered.contains(version));
            crate::version::lemma_newest_first_members(links, ordered, version);
            let k = choose|k: int| 0 <= k < links.len() && links[k] == version;
            assert(found@[k]@ == version);
        }
    }
    out
}

// -- php.net release index ---------------------------------------------------

/// The keys of an object.
pub open spec fn keys_of(entries: Seq<(String, Json)>) -> Seq<Seq<char>> {
    entries.map_values(|entry: (String, Json)| entry.0@)
}

/// The versions of an index that is keyed by version, newest first.
pub open spec fn php_versions(entries: Seq<(String, Json)>) -> Seq<Seq<char>> {
    crate::version::newest_first_of(
        keys_of(entries).filter(|key: Seq<char>| crate::version::is_plain(key)),
    )
}

/// The digest of a source archive, where it is the `.tar.xz` one.
pub open spec fn archive_digest(file: Json) -> Option<Seq<char>> {
    match file.member_text("filename"@) {
        Some(name) => if ".tar.xz"@.is_suffix_of(name) {
            file.member_text("sha256"@)
        } else {
            None
        },
        None => None,
    }
}

/// The first digest of a `.tar.xz` archive among the files from `from` on.
pub open spec fn first_digest(files: Seq<Json>, from: int) -> Option<Seq<char>>
    decreases files.len() - from,
{
    if from < 0 || from >= files.len() {
        None
    } else if archive_digest(files[from]) is Some {
        archive_digest(files[from])
    } else {
        first_digest(files, from + 1)
    }
}

/// The digest that an index publishes for the source of a version.
pub open spec fn php_digest(entries: Seq<(String, Json)>, version: Seq<char>) -> Option<Seq<char>> {
    match crate::json::entry_of(entries, version) {
        Some(release) => match release.member("source"@) {
            Some(source) => first_digest(source.items(), 0),
            None => None,
        },
        None => None,
    }
}

/// A requested PHP version, as versions are spelled in the index.
pub open spec fn php_spelling(request: Seq<char>) -> Seq<char> {
    crate::text::without_prefixes(crate::text::without_prefixes(request, "php-"@), "v"@)
}

/// The PHP version that answers a request, which is the newest one that does, and
/// the digest of its source.
pub open spec fn selected_php(entries: Seq<(String, Json)>, request: Seq<char>) -> Result<
    (Seq<char>, Option<Seq<char>>),
    Refusal,
> {
    let short = crate::version::shortlist_of(php_versions(entries), php_spelling(request));
    if short.len() == 0 {
        Err(Refusal::NotPhp(php_spelling(request)))
    } else {
        Ok((short[0], php_digest(entries, short[0])))
    }
}

/// The digest that an index publishes for the source of a version.
fn published_digest(index: &Vec<(String, Json)>, version: &str) -> (digest: Option<String>)
    ensures
        crate::text::text_of(digest) == php_digest(index@, version@),
{
    let release = match lookup(index, version) {
        Some(release) => release,
        None => {
            return None;
        },
    };
    let files = match release.get("source") {
        Some(Json::Array(files)) => files,
        _ => {
            return None;
        },
    };
    let xz = chars_of(".tar.xz");
    let mut i: usize = 0;
    while i < files.len()
        invariant
            i <= files@.len(),
            xz@ == ".tar.xz"@,
            php_digest(index@, version@) == first_digest(files@, 0),
            first_digest(files@, 0) == first_digest(files@, i as int),
        ensures
            first_digest(files@, 0) is None,
        decreases files@.len() - i,
    {
        let file = &files[i];
        match file.get_str("filename") {
            Some(name) => {
                let chars = chars_of(name);
                if finishes_with(&chars, &xz) {
                    match file.get_str("sha256") {
                        Some(digest) => {
                            return Some(digest.to_owned());
                        },
                        None => {},
                    }
                }
            },
            None => {},
        }
        i += 1;
    }
    None
}

/// Picks a PHP version out of the php.net release index and returns the
/// published digest of its `.tar.xz` source archive alongside it.
pub fn select_php(index: &Vec<(String, Json)>, request: &str) -> (selected: Result<
    (String, Option<String>),
    SelectError,
>)
    ensures
        match selected {
            Ok((version, digest)) => selected_php(index@, request@) == Ok::<
                (Seq<char>, Option<Seq<char>>),
                Refusal,
            >((version@, crate::text::text_of(digest))),
            Err(error) => selected_php(index@, request@) == Err::<
                (Seq<char>, Option<Seq<char>>),
                Refusal,
            >(error@),
        },
{
    let request = strip_all(strip_all(request, "php-").as_str(), "v");
    let ghost all = keys_of(index@);
    let ghost pred = |key: Seq<char>| crate::version::is_plain(key);
    let mut plain: Vec<String> = Vec::new();
    let mut i: usize = 0;
    reveal(Seq::filter);
    assert(all.take(0).filter(pred) =~= crate::text::texts(plain@));
    while i < index.len()
        invariant
            i <= index@.len(),
            all == keys_of(index@),
            pred == (|key: Seq<char>| crate::version::is_plain(key)),
            crate::text::texts(plain@) == all.take(i as int).filter(pred),
        decreases index@.len() - i,
    {
        let ghost before = crate::text::texts(plain@);
        assert(all.take(i + 1).drop_last() =~= all.take(i as int));
        if is_plain_version(index[i].0.as_str()) {
            plain.push(index[i].0.clone());
            assert(crate::text::texts(plain@) =~= before.push(all[i as int]));
        }
        reveal(Seq::filter);
        i += 1;
    }
    assert(all.take(i as int) =~= all);
    let candidates = newest_first(&plain);
    let short = shortlist(candidates, request.as_str());
    if short.len() == 0 {
        return Err(SelectError::NotPhp { request });
    }
    let version = short[0].clone();
    assert(crate::text::texts(short@)[0] == version@);
    let digest = published_digest(index, version.as_str());
    Ok((version, digest))
}

// -- GitHub tags -------------------------------------------------------------

/// The version that a tag stands for: its name after `prefix`, where that is a
/// plain version.
pub open spec fn tagged_version(tag: Json, prefix: Seq<char>) -> Option<Seq<char>> {
    match tag.member_text("name"@) {
        Some(name) => if prefix.is_prefix_of(name) && crate::version::is_plain(
            name.skip(prefix.len() as int),
        ) {
            Some(name.skip(prefix.len() as int))
        } else {
            None
        },
        None => None,
    }
}

/// The versions that some tags stand for.
pub open spec fn tagged_versions(tags: Seq<Json>, prefix: Seq<char>) -> Seq<Seq<char>> {
    tags.filter_map(|tag: Json| tagged_version(tag, prefix))
}

/// Adds the versions that some tags stand for to `names`.
pub fn collect_tags(names: &mut Vec<String>, tags: &Vec<Json>, prefix: &str)
    ensures
        crate::text::texts(final(names)@) == crate::text::texts(old(names)@) + tagged_versions(
            tags@,
            prefix@,
        ),
{
    let prefix_chars = chars_of(prefix);
    let ghost start = crate::text::texts(names@);
    let ghost pick = |tag: Json| tagged_version(tag, prefix@);
    let mut i: usize = 0;
    assert(start + tags@.take(0).filter_map(pick) =~= start);
    while i < tags.len()
        invariant
            i <= tags@.len(),
            prefix_chars@ == prefix@,
            pick == (|tag: Json| tagged_version(tag, prefix@)),
            crate::text::texts(names@) == start + tags@.take(i as int).filter_map(pick),
        decreases tags@.len() - i,
    {
        let ghost before = crate::text::texts(names@);
        proof {
            tags@.lemma_filter_map_take_succ(pick, i as int);
        }
        match tags[i].get_str("name") {
            Some(name) => {
                let chars = chars_of(name);
                let len = chars.len();
                if begins_with(&chars, &prefix_chars) {
                    let version = string_of(slice_subrange(&chars, prefix_chars.len(), len));
                    if is_plain_version(version.as_str()) {
                        names.push(version);
                        assert(crate::text::texts(names@) =~= before.push(version@));
                    }
                }
            },
            None => {},
        }
        i += 1;
        assert(crate::text::texts(names@) =~= start + tags@.take(i as int).filter_map(pick));
    }
    assert(tags@.take(i as int) =~= tags@);
}

/// The newest of some versions.
pub open spec fn newest_of(versions: Seq<Seq<char>>) -> Option<Seq<char>> {
    let ordered = crate::version::without_repeats(crate::version::newest_first_of(versions));
    if ordered.len() == 0 {
        None
    } else {
        Some(ordered[0])
    }
}

/// The newest of some versions.
pub fn newest(versions: &Vec<String>) -> (version: Option<String>)
    ensures
        crate::text::text_of(version) == newest_of(crate::text::texts(versions@)),
{
    let ordered = dedup(&newest_first(versions));
    if ordered.len() == 0 {
        None
    } else {
        assert(crate::text::texts(ordered@)[0] == ordered@[0]@);
        Some(ordered[0].clone())
    }
}

// -- laws --------------------------------------------------------------------

/// Only official Node.js releases are ever selected.
pub proof fn law_selected_node_is_listed(releases: Seq<(Seq<char>, bool)>, request: Seq<char>)
    ensures
        selected_node(releases, request) matches Ok(version) ==> is_listed(releases, version),
{
    if releases.len() > 0 {
        assert(releases[0].0 == releases[0].0);
        lemma_first_lts(releases, 0);
    }
}

/// The first release with long term support is listed as such, and no such
/// release stands before it.
proof fn lemma_first_lts(releases: Seq<(Seq<char>, bool)>, from: int)
    requires
        0 <= from,
    ensures
        match first_lts(releases, from) {
            Some(version) => exists|i: int|
                from <= i < releases.len() && #[trigger] releases[i] == (version, true)
                    && forall|j: int| from <= j < i ==> !(#[trigger] releases[j]).1,
            None => forall|j: int| from <= j < releases.len() ==> !(#[trigger] releases[j]).1,
        },
    decreases releases.len() - from,
{
    if from < releases.len() {
        if releases[from].1 {
            assert(releases[from] == (releases[from].0, true));
        } else {
            lemma_first_lts(releases, from + 1);
            if let Some(version) = first_lts(releases, from + 1) {
                let i = choose|i: int|
                    from + 1 <= i < releases.len() && #[trigger] releases[i] == (version, true)
                        && forall|j: int| from + 1 <= j < i ==> !(#[trigger] releases[j]).1;
                assert(releases[i] == (version, true));
            }
        }
    }
}

/// `lts` passes over newer releases without long term support, and stops at the
/// first that has it.
pub proof fn law_lts_skips_current(releases: Seq<(Seq<char>, bool)>, version: Seq<char>)
    requires
        selected_node(releases, "lts"@) == Ok::<Seq<char>, Refusal>(version),
    ensures
        exists|i: int|
            0 <= i < releases.len() && #[trigger] releases[i] == (version, true) && forall|j: int|
                0 <= j < i ==> !(#[trigger] releases[j]).1,
{
    reveal_strlit("lts");
    reveal_strlit("latest");
    reveal_strlit("node-");
    assert("lts"@[0] == 'l' && "node-"@[0] == 'n');
    assert(!"node-"@.is_prefix_of("lts"@));
    assert("lts"@.len() != "latest"@.len());
    lemma_first_lts(releases, 0);
}

/// Taking a prefix away takes away as many more as follow it.
proof fn lemma_without_prefixes_absorbs(text: Seq<char>, prefix: Seq<char>)
    ensures
        crate::text::without_prefixes(prefix + text, prefix) == crate::text::without_prefixes(
            text,
            prefix,
        ),
{
    if prefix.len() > 0 {
        assert((prefix + text).skip(prefix.len() as int) =~= text);
        assert(prefix.is_prefix_of(prefix + text));
    } else {
        assert(prefix + text =~= text);
    }
}

/// A Node.js version may be asked for with or without the project's name before
/// it, and, where it is no alias, with or without the letter `v`.
pub proof fn law_node_accepts_every_spelling(
    releases: Seq<(Seq<char>, bool)>,
    request: Seq<char>,
)
    ensures
        selected_node(releases, "node-"@ + request) == selected_node(releases, request),
        request != "latest"@ && request != "lts"@ && !"node-"@.is_prefix_of(request)
            ==> selected_node(releases, "v"@ + request) == selected_node(releases, request),
{
    lemma_without_prefixes_absorbs(request, "node-"@);
    lemma_without_prefixes_absorbs(request, "v"@);
    reveal_strlit("node-");
    reveal_strlit("v");
    reveal_strlit("lts");
    reveal_strlit("latest");
    let spelled = "v"@ + request;
    assert(spelled[0] == 'v');
    assert("node-"@[0] == 'n' && "lts"@[0] == 'l' && "latest"@[0] == 'l');
    assert(!"node-"@.is_prefix_of(spelled));
}

/// The PHP version selected is a plain version that the index lists, it answers
/// the request, and no such version is newer.
pub proof fn law_selected_php_is_newest_listed(
    entries: Seq<(String, Json)>,
    request: Seq<char>,
    version: Seq<char>,
    digest: Option<Seq<char>>,
)
    requires
        selected_php(entries, request) == Ok::<(Seq<char>, Option<Seq<char>>), Refusal>(
            (version, digest),
        ),
    ensures
        keys_of(entries).contains(version),
        crate::version::is_plain(version),
        php_spelling(request) == "latest"@ || crate::version::answers(
            version,
            php_spelling(request),
        ),
        forall|other: Seq<char>| #[trigger]
            keys_of(entries).contains(other) && crate::version::is_plain(other) && (php_spelling(
                request,
            ) == "latest"@ || crate::version::answers(other, php_spelling(request)))
                ==> !crate::version::newer(other, version),
{
    let asked = php_spelling(request);
    let keys = keys_of(entries);
    let plain = |key: Seq<char>| crate::version::is_plain(key);
    let listed = keys.filter(plain);
    let versions = php_versions(entries);
    let short = crate::version::shortlist_of(versions, asked);
    let fits = |candidate: Seq<char>| crate::version::answers(candidate, asked);
    crate::version::lemma_newest_first_exists(listed);
    crate::version::law_first_of_shortlist_is_newest(versions, asked);
    assert(short.contains(version));
    if asked != "latest"@ {
        versions.lemma_filter_contains_rev(fits, version);
        versions.lemma_filter_pred(fits, 0);
    }
    crate::version::lemma_newest_first_members(listed, versions, version);
    keys.lemma_filter_contains_rev(plain, version);
    let k = choose|k: int| 0 <= k < listed.len() && listed[k] == version;
    keys.lemma_filter_pred(plain, k);
    assert forall|other: Seq<char>| #[trigger]
        keys.contains(other) && crate::version::is_plain(other) && (asked == "latest"@
            || crate::version::answers(other, asked)) implies !crate::version::newer(
        other,
        version,
    ) by {
        let i = choose|i: int| 0 <= i < keys.len() && keys[i] == other;
        keys.lemma_filter_contains(plain, i);
        crate::version::lemma_newest_first_members(listed, versions, other);
        let j = choose|j: int| 0 <= j < versions.len() && versions[j] == other;
        assert(versions[j] == other);
    }
}

/// The newest of some versions is one of them, and none of them is newer. Only
/// where there are none is there no newest.
pub proof fn law_newest_is_newest(versions: Seq<Seq<char>>)
    ensures
        match newest_of(versions) {
            Some(version) => versions.contains(version) && forall|other: Seq<char>| #[trigger]
                versions.contains(other) ==> !crate::version::newer(other, version),
            None => versions.len() == 0,
        },
{
    let sorted = crate::version::newest_first_of(versions);
    let ordered = crate::version::without_repeats(sorted);
    crate::version::lemma_newest_first_exists(versions);
    crate::version::law_without_repeats_keeps_order(sorted);
    if ordered.len() > 0 {
        let version = ordered[0];
        assert(ordered.contains(version));
        crate::version::lemma_newest_first_members(versions, sorted, version);
        assert forall|other: Seq<char>| #[trigger] versions.contains(other) implies
            !crate::version::newer(other, version) by {
            crate::version::lemma_newest_first_members(versions, sorted, other);
            assert(ordered.contains(other));
            let k = choose|k: int| 0 <= k < ordered.len() && ordered[k] == other;
            if k > 0 {
                assert(!crate::version::newer(ordered[k], ordered[0]));
            }
        }
    } else if versions.len() > 0 {
        assert(versions.contains(versions[0]));
        crate::version::lemma_newest_first_members(versions, sorted, versions[0]);
        assert(ordered.contains(versions[0]));
    }
}

/// The versions of a page are plain versions that it links to, all of them, newest
/// first.
pub proof fn law_published_versions_are_newest_first(html: Seq<char>, prefix: Seq<char>)
    ensures
        crate::version::descends(published_versions(html, prefix)),
        forall|version: Seq<char>| #[trigger]
            published_versions(html, prefix).contains(version) <==> linked_versions(
                html,
                prefix,
            ).contains(version),
        forall|version: Seq<char>| #[trigger]
            published_versions(html, prefix).contains(version) ==> crate::version::is_plain(
                version,
            ),
{
    let linked = linked_versions(html, prefix);
    let sorted = crate::version::newest_first_of(linked);
    crate::version::lemma_newest_first_exists(linked);
    crate::version::law_without_repeats_keeps_order(sorted);
    assert forall|version: Seq<char>| #[trigger]
        published_versions(html, prefix).contains(version) <==> linked.contains(version) by {
        crate::version::lemma_newest_first_members(linked, sorted, version);
    }
    assert forall|version: Seq<char>| #[trigger]
        published_versions(html, prefix).contains(version) implies crate::version::is_plain(
        version,
    ) by {
        lemma_linked_is_plain(html, prefix, version);
    }
}

/// What a page links to as a version is a plain version.
proof fn lemma_linked_is_plain(html: Seq<char>, prefix: Seq<char>, version: Seq<char>)
    requires
        linked_versions(html, prefix).contains(version),
    ensures
        crate::version::is_plain(version),
{
    let chunks = crate::text::split(html, link_mark()).skip(1);
    chunks.lemma_filter_map_contains(
        |chunk: Seq<char>| linked_version(chunk, prefix),
        version,
    );
}

/// For every release of the index, with or without long term support, asking for its
/// version by number selects that version, with or without the letter `v` and the
/// project's name before it; only a version that no release has is refused.
pub proof fn law_listed_node_versions_are_selected(
    releases: Seq<(Seq<char>, bool)>,
    number: Seq<char>,
)
    requires
        releases.len() > 0,
        number != "latest"@,
        number != "lts"@,
        number.len() > 0 ==> number[0] != 'v' && number[0] != 'n',
    ensures
        forall|request: Seq<char>|
            #![trigger selected_node(releases, request)]
            request == number || request == "v"@ + number || request == "node-"@ + number || request
                == "node-"@ + ("v"@ + number) ==> selected_node(releases, request) == (
            if exists|i: int|
                0 <= i < releases.len() && (#[trigger] releases[i]).0 == seq!['v'] + number {
                Ok::<Seq<char>, Refusal>(seq!['v'] + number)
            } else {
                Err::<Seq<char>, Refusal>(Refusal::NotNode(seq!['v'] + number))
            }),
{
    reveal_strlit("v");
    reveal_strlit("node-");
    reveal_strlit("lts");
    reveal_strlit("latest");
    assert("v"@ =~= seq!['v']);
    assert("node-"@[0] == 'n' && "v"@[0] == 'v');
    assert(!"v"@.is_prefix_of(number)) by {
        if "v"@.is_prefix_of(number) {
            assert(number[0] == "v"@[0]);
        }
    }
    assert(!"node-"@.is_prefix_of(number)) by {
        if "node-"@.is_prefix_of(number) {
            assert(number[0] == "node-"@[0]);
        }
    }
    assert(crate::text::without_prefixes(number, "node-"@) == number);
    assert(crate::text::without_prefixes(number, "v"@) == number);
    law_node_accepts_every_spelling(releases, number);
    law_node_accepts_every_spelling(releases, "v"@ + number);
    assert(node_spelling(number) == seq!['v'] + number);
    assert(selected_node(releases, number) == (if is_listed(releases, seq!['v'] + number) {
        Ok::<Seq<char>, Refusal>(seq!['v'] + number)
    } else {
        Err::<Seq<char>, Refusal>(Refusal::NotNode(seq!['v'] + number))
    }));
}

/// `latest` is the first release of the index, whatever its support; `lts` is
/// answered exactly where some release has long term support; and an empty index
/// answers nothing.
pub proof fn law_node_aliases_are_answered(releases: Seq<(Seq<char>, bool)>, request: Seq<char>)
    ensures
        releases.len() == 0 ==> selected_node(releases, request) == Err::<Seq<char>, Refusal>(
            Refusal::EmptyIndex,
        ),
        releases.len() > 0 ==> selected_node(releases, "latest"@) == Ok::<Seq<char>, Refusal>(
            releases[0].0,
        ),
        releases.len() > 0 ==> (selected_node(releases, "lts"@) is Ok <==> exists|i: int|
            0 <= i < releases.len() && (#[trigger] releases[i]).1),
        releases.len() > 0 && selected_node(releases, "lts"@) is Err ==> selected_node(
            releases,
            "lts"@,
        ) == Err::<Seq<char>, Refusal>(Refusal::NoLts),
{
    reveal_strlit("node-");
    reveal_strlit("lts");
    reveal_strlit("latest");
    assert("lts"@[0] == 'l' && "latest"@[0] == 'l' && "node-"@[0] == 'n');
    assert("lts"@.len() != "latest"@.len());
    assert(!"node-"@.is_prefix_of("lts"@));
    assert(!"node-"@.is_prefix_of("latest"@));
    lemma_first_lts(releases, 0);
    if let Some(version) = first_lts(releases, 0) {
        let i = choose|i: int|
            0 <= i < releases.len() && #[trigger] releases[i] == (version, true) && forall|j: int|
                0 <= j < i ==> !(#[trigger] releases[j]).1;
        assert(releases[i].1);
    }
}

/// A release has long term support unless its index says `false` of it.
pub proof fn law_only_false_is_no_support(release: NodeRelease)
    ensures
        has_lts(release) <==> !(release.lts matches Json::Bool(lts) && !lts),
{
}

/// Some PHP version is selected exactly where a plain version of the index answers
/// the request; the project's name and the letter `v` before it change nothing.
pub proof fn law_php_requests_are_answered(entries: Seq<(String, Json)>, request: Seq<char>)
    ensures
        selected_php(entries, request) is Ok <==> exists|i: int|
            0 <= i < entries.len() && crate::version::is_plain((#[trigger] entries[i]).0@) && (
            php_spelling(request) == "latest"@ || crate::version::answers(
                entries[i].0@,
                php_spelling(request),
            )),
        selected_php(entries, request) matches Err(refusal) ==> refusal == Refusal::NotPhp(
            php_spelling(request),
        ),
        selected_php(entries, "php-"@ + request) == selected_php(entries, request),
        !"php-"@.is_prefix_of(request) ==> selected_php(entries, "v"@ + request) == selected_php(
            entries,
            request,
        ),
        !"php-"@.is_prefix_of(request) && !"v"@.is_prefix_of(request) ==> php_spelling(request)
            == request,
{
    reveal_strlit("php-");
    reveal_strlit("v");
    lemma_without_prefixes_absorbs(request, "php-"@);
    lemma_without_prefixes_absorbs(request, "v"@);
    let spelled = "v"@ + request;
    assert(spelled[0] == 'v' && "php-"@[0] == 'p');
    assert(!"php-"@.is_prefix_of(spelled));
    let asked = php_spelling(request);
    let keys = keys_of(entries);
    let plain = |key: Seq<char>| crate::version::is_plain(key);
    let listed = keys.filter(plain);
    let versions = php_versions(entries);
    let short = crate::version::shortlist_of(versions, asked);
    let fits = |candidate: Seq<char>| crate::version::answers(candidate, asked);
    crate::version::lemma_newest_first_exists(listed);
    crate::version::law_first_of_shortlist_is_newest(versions, asked);
    if short.len() > 0 {
        let version = short[0];
        assert(short.contains(version));
        if asked != "latest"@ {
            versions.lemma_filter_contains_rev(fits, version);
            versions.lemma_filter_pred(fits, 0);
        }
        crate::version::lemma_newest_first_members(listed, versions, version);
        keys.lemma_filter_contains_rev(plain, version);
        let k = choose|k: int| 0 <= k < listed.len() && listed[k] == version;
        keys.lemma_filter_pred(plain, k);
        let i = choose|i: int| 0 <= i < keys.len() && keys[i] == version;
        assert(entries[i].0@ == version);
    }
    if exists|i: int|
        0 <= i < entries.len() && crate::version::is_plain((#[trigger] entries[i]).0@) && (asked
            == "latest"@ || crate::version::answers(entries[i].0@, asked)) {
        let i = choose|i: int|
            0 <= i < entries.len() && crate::version::is_plain((#[trigger] entries[i]).0@) && (
            asked == "latest"@ || crate::version::answers(entries[i].0@, asked));
        let other = entries[i].0@;
        assert(keys[i] == other);
        keys.lemma_filter_contains(plain, i);
        crate::version::lemma_newest_first_members(listed, versions, other);
        let j = choose|j: int| 0 <= j < versions.len() && versions[j] == other;
        assert(versions[j] == other);
    }
}

/// The digest of a PHP version is that of the first of its `.tar.xz` files that has
/// one, however many files come before it.
pub proof fn law_first_published_digest_counts(
    entries: Seq<(String, Json)>,
    version: Seq<char>,
    files: Vec<Json>,
    at: int,
    name: Seq<char>,
    digest: Seq<char>,
)
    requires
        crate::json::entry_of(entries, version) matches Some(release) && release.member(
            "source"@,
        ) == Some(Json::Array(files)),
        0 <= at < files@.len(),
        files@[at].member_text("filename"@) == Some(name + ".tar.xz"@),
        files@[at].member_text("sha256"@) == Some(digest),
        forall|i: int|
            0 <= i < at ==> (#[trigger] files@[i]).member_text("sha256"@) is None
                || files@[i].member_text("filename"@) is None || !".tar.xz"@.is_suffix_of(
                files@[i].member_text("filename"@)->Some_0,
            ),
    ensures
        php_digest(entries, version) == Some(digest),
{
    let xz = name + ".tar.xz"@;
    assert(xz.subrange(name.len() as int, xz.len() as int) =~= ".tar.xz"@);
    assert(".tar.xz"@.is_suffix_of(xz));
    lemma_first_digest(files@, 0, at);
}

proof fn lemma_first_digest(files: Seq<Json>, from: int, at: int)
    requires
        0 <= from <= at < files.len(),
        archive_digest(files[at]) is Some,
        forall|i: int| from <= i < at ==> archive_digest(#[trigger] files[i]) is None,
    ensures
        first_digest(files, from) == archive_digest(files[at]),
    decreases at - from,
{
    if from < at {
        assert(archive_digest(files[from]) is None);
        lemma_first_digest(files, from + 1, at);
    }
}

/// A digest of a PHP version is published with a `.tar.xz` file of it.
pub proof fn law_published_digest_is_of_an_archive(
    entries: Seq<(String, Json)>,
    version: Seq<char>,
    digest: Seq<char>,
)
    requires
        php_digest(entries, version) == Some(digest),
    ensures
        exists|file: Json|
            #![trigger file.member_text("sha256"@)]
            file.member_text("sha256"@) == Some(digest) && file.member_text("filename"@) is Some
                && ".tar.xz"@.is_suffix_of(file.member_text("filename"@)->Some_0)
                && crate::json::entry_of(entries, version) is Some && crate::json::entry_of(
                entries,
                version,
            )->Some_0.member("source"@) is Some && crate::json::entry_of(
                entries,
                version,
            )->Some_0.member("source"@)->Some_0.items().contains(file),
{
    let release = crate::json::entry_of(entries, version)->Some_0;
    let files = release.member("source"@)->Some_0.items();
    lemma_digest_found(files, 0);
    let i = choose|i: int|
        0 <= i < files.len() && archive_digest(#[trigger] files[i]) == Some(digest);
    let file = files[i];
    assert(files.contains(file));
    assert(file.member_text("sha256"@) == Some(digest));
}

proof fn lemma_digest_found(files: Seq<Json>, from: int)
    requires
        0 <= from,
        first_digest(files, from) is Some,
    ensures
        exists|i: int|
            from <= i < files.len() && archive_digest(#[trigger] files[i]) == first_digest(
                files,
                from,
            ),
    decreases files.len() - from,
{
    if archive_digest(files[from]) is None {
        lemma_digest_found(files, from + 1);
        let i = choose|i: int|
            from + 1 <= i < files.len() && archive_digest(#[trigger] files[i]) == first_digest(
                files,
                from + 1,
            );
        assert(archive_digest(files[i]) == first_digest(files, from));
    } else {
        assert(archive_digest(files[from]) == first_digest(files, from));
    }
}

/// A tag stands for a version exactly where its name is the prefix and then a plain
/// version.
pub proof fn law_tags_are_prefixed_versions(tag: Json, prefix: Seq<char>, version: Seq<char>)
    ensures
        tagged_version(tag, prefix) == Some(version) <==> tag.member_text("name"@) == Some(
            prefix + version,
        ) && crate::version::is_plain(version),
{
    let name = prefix + version;
    assert(name.skip(prefix.len() as int) =~= version);
    assert(prefix.is_prefix_of(name));
    if tagged_version(tag, prefix) == Some(version) {
        let name = tag.member_text("name"@)->Some_0;
        assert(name =~= prefix + name.skip(prefix.len() as int));
    }
}

/// All tags of a page are gone through, in their order.
pub proof fn law_every_tag_is_read(tags: Seq<Json>, tag: Json, prefix: Seq<char>)
    ensures
        tagged_versions(Seq::empty(), prefix).len() == 0,
        tagged_versions(tags.push(tag), prefix) == (match tagged_version(tag, prefix) {
            Some(version) => tagged_versions(tags, prefix).push(version),
            None => tagged_versions(tags, prefix),
        }),
{
    let pick = |tag: Json| tagged_version(tag, prefix);
    let all = tags.push(tag);
    reveal(Seq::filter_map);
    all.lemma_filter_map_take_succ(pick, tags.len() as int);
    assert(all.take(tags.len() as int) =~= tags);
    assert(all.take((tags.len() + 1) as int) =~= all);
    assert(Seq::<Json>::empty().filter_map(pick).len() == 0);
}

/// A link to a directory of the page's own level, named with the prefix and a plain
/// version, stands for that version, with or without `./` before it.
pub proof fn law_same_level_directories_are_linked(
    prefix: Seq<char>,
    version: Seq<char>,
    rest: Seq<char>,
)
    requires
        crate::version::is_plain(version),
        forall|i: int| 0 <= i < prefix.len() ==> #[trigger] prefix[i] != '"' && prefix[i] != '/',
    ensures
        linked_version(prefix + version + seq!['/', '"'] + rest, prefix) == Some(version),
        linked_version(seq!['.', '/'] + prefix + version + seq!['/', '"'] + rest, prefix) == Some(
            version,
        ),
{
    let name = prefix + version;
    let dotted = seq!['.', '/'] + name;
    lemma_plain_chars(version);
    assert forall|i: int| 0 <= i < name.len() implies #[trigger] name[i] != '"' && name[i]
        != '/' by {
        if i >= prefix.len() {
            assert(name[i] == version[i - prefix.len()]);
        }
    }
    assert(prefix + version + seq!['/', '"'] + rest =~= name.push('/').push('"') + rest);
    assert(seq!['.', '/'] + prefix + version + seq!['/', '"'] + rest =~= dotted.push('/').push('"')
        + rest);
    lemma_link_target(name, rest);
    lemma_link_target(dotted, rest);
    lemma_one_step(name);
    lemma_one_step(seq!['.']);
    assert(dotted =~= seq!['.'].push('/') + name);
    crate::text::lemma_split_concat(seq!['.'], '/', name);
    let steps = crate::text::split(dotted, seq!['/']);
    assert(steps =~= seq![seq!['.'], name]);
    assert(steps.drop_last() =~= seq![seq!['.']]);
    assert(seq![seq!['.']].drop_last() =~= Seq::<Seq<char>>::empty());
    assert(depth_of(Seq::<Seq<char>>::empty()) == Some(0nat));
    assert(depth_of(seq![seq!['.']]) == Some(0nat));
    assert(seq![name].drop_last() =~= Seq::<Seq<char>>::empty());
    assert(name.skip(prefix.len() as int) =~= version);
    assert(prefix.is_prefix_of(name));
}

proof fn lemma_plain_chars(version: Seq<char>)
    requires
        crate::version::is_plain(version),
    ensures
        forall|i: int|
            0 <= i < version.len() ==> crate::number::is_digit(#[trigger] version[i]) || version[i]
                == '.',
{
    crate::text::lemma_join_split(version, '.');
    let parts = crate::version::parts(version);
    lemma_joined_chars(parts);
}

proof fn lemma_joined_chars(parts: Seq<Seq<char>>)
    requires
        forall|i: int| 0 <= i < parts.len() ==> crate::number::all_digits(#[trigger] parts[i]),
    ensures
        forall|i: int|
            0 <= i < crate::text::join(parts, seq!['.']).len() ==> crate::number::is_digit(
                #[trigger] crate::text::join(parts, seq!['.'])[i],
            ) || crate::text::join(parts, seq!['.'])[i] == '.',
    decreases parts.len(),
{
    if parts.len() > 0 {
        let front = parts.drop_last();
        assert forall|i: int| 0 <= i < front.len() implies crate::number::all_digits(
            #[trigger] front[i],
        ) by {
            assert(front[i] == parts[i]);
        }
        lemma_joined_chars(front);
        assert(crate::number::all_digits(parts[parts.len() - 1]));
        let whole = crate::text::join(parts, seq!['.']);
        assert forall|i: int| 0 <= i < whole.len() implies crate::number::is_digit(
            #[trigger] whole[i],
        ) || whole[i] == '.' by {
            let before = crate::text::join(front, seq!['.']);
            if parts.len() > 1 && i < before.len() {
                assert(whole[i] == before[i]);
            } else if parts.len() > 1 && i > before.len() {
                assert(whole[i] == parts.last()[i - before.len() - 1]);
            }
        }
    }
}

proof fn lemma_link_target(path: Seq<char>, rest: Seq<char>)
    requires
        forall|i: int| 0 <= i < path.len() ==> #[trigger] path[i] != '"',
    ensures
        ({
            let chunk = path.push('/').push('"') + rest;
            &&& crate::text::first(chunk, seq!['"']) == Some((path.len() + 1) as int)
            &&& chunk.take((path.len() + 1) as int) == path.push('/')
            &&& path.push('/').drop_last() == path
        }),
{
    let chunk = path.push('/').push('"') + rest;
    assert(chunk[(path.len() + 1) as int] == '"');
    assert forall|i: int| 0 <= i < path.len() + 1 implies chunk[i] != '"' by {
        if i < path.len() {
            assert(chunk[i] == path[i]);
        }
    }
    crate::text::lemma_first_char_is(chunk, '"', (path.len() + 1) as int);
    assert(chunk.take((path.len() + 1) as int) =~= path.push('/'));
    assert(path.push('/').drop_last() =~= path);
}

proof fn lemma_one_step(name: Seq<char>)
    requires
        forall|i: int| 0 <= i < name.len() ==> #[trigger] name[i] != '/',
    ensures
        crate::text::split(name, seq!['/']) == seq![name],
{
    crate::text::lemma_first_char(name, '/');
    assert(crate::text::split(name, seq!['/']) =~= seq![name]);
}

/// A link stands for a version only where its target ends with the prefix, the
/// version and `/`, after nothing or another `/`, and does not begin with `/` or
/// `../`.
pub proof fn law_links_elsewhere_are_ignored(
    chunk: Seq<char>,
    prefix: Seq<char>,
    version: Seq<char>,
    end: int,
)
    requires
        linked_version(chunk, prefix) == Some(version),
        0 <= end < chunk.len(),
        chunk[end] == '"',
        forall|i: int| 0 <= i < end ==> chunk[i] != '"',
    ensures
        crate::version::is_plain(version),
        (prefix + version + seq!['/']).is_suffix_of(chunk.take(end)),
        chunk[0] != '/',
        !seq!['.', '.', '/'].is_prefix_of(chunk.take(end)),
{
    crate::text::lemma_first_char_is(chunk, '"', end);
    let target = chunk.take(end);
    let path = target.drop_last();
    let steps = crate::text::split(path, seq!['/']);
    let name = steps.last();
    crate::text::lemma_split_pieces(path, '/');
    crate::text::lemma_join_split(path, '/');
    lemma_ends_with_last(steps);
    assert(name =~= prefix + version);
    assert(target =~= path.push('/'));
    let tail = prefix + version + seq!['/'];
    assert(tail =~= name.push('/'));
    assert(target.skip(target.len() - tail.len()) =~= tail);
    assert(target.subrange(target.len() - tail.len(), target.len() as int) =~= tail);
    crate::version::lemma_plain_begins_with_digit(version);
    lemma_first_step(path);
    let before = steps.drop_last();
    if chunk[0] == '/' {
        assert(path.len() > 0);
        assert(path[0] == '/');
        assert(steps[0].len() == 0);
        assert(steps.len() > 1);
        lemma_absolute(before);
    }
    if seq!['.', '.', '/'].is_prefix_of(target) {
        assert(target[0] == '.' && target[1] == '.' && target[2] == '/');
        if path.len() == 2 {
            assert(path =~= seq!['.', '.']);
            lemma_one_step(path);
            assert(name == path);
            assert(name.last() == '.');
            lemma_plain_ends_with_digit(version);
            assert(name.last() == version.last());
        } else {
            assert(path[0] == '.' && path[1] == '.' && path[2] == '/');
            assert(steps[0] =~= seq!['.', '.']);
            assert(steps.len() > 1);
            lemma_upward(before);
        }
    }
}

proof fn lemma_plain_ends_with_digit(version: Seq<char>)
    requires
        crate::version::is_plain(version),
    ensures
        version.len() > 0,
        crate::number::is_digit(version.last()),
{
    let parts = crate::version::parts(version);
    crate::text::lemma_join_split(version, '.');
    lemma_ends_with_last_of(parts, '.');
    let part = parts[parts.len() - 1];
    assert(part.len() > 0 && crate::number::all_digits(part));
    assert(crate::number::is_digit(part[part.len() - 1]));
    assert(version.skip(version.len() - part.len())[part.len() - 1] == version.last());
}

proof fn lemma_ends_with_last_of(list: Seq<Seq<char>>, c: char)
    requires
        list.len() > 0,
    ensures
        crate::text::join(list, seq![c]).len() >= list.last().len(),
        crate::text::join(list, seq![c]).skip(
            crate::text::join(list, seq![c]).len() - list.last().len(),
        ) == list.last(),
{
    let whole = crate::text::join(list, seq![c]);
    assert(whole.skip(whole.len() - list.last().len()) =~= list.last());
}

proof fn lemma_ends_with_last(steps: Seq<Seq<char>>)
    requires
        steps.len() > 0,
    ensures
        ({
            let path = crate::text::join(steps, seq!['/']);
            &&& path.len() >= steps.last().len()
            &&& path.skip(path.len() - steps.last().len()) == steps.last()
        }),
{
    lemma_ends_with_last_of(steps, '/');
}

proof fn lemma_first_step(path: Seq<char>)
    ensures
        ({
            let steps = crate::text::split(path, seq!['/']);
            &&& steps.len() > 0
            &&& path.len() > 0 && path[0] == '/' ==> steps.len() > 1 && steps[0].len() == 0
            &&& path.len() > 2 && path[0] != '/' && path[1] != '/' && path[2] == '/'
                ==> steps.len() > 1 && steps[0] == seq![path[0], path[1]]
        }),
{
    let steps = crate::text::split(path, seq!['/']);
    crate::text::lemma_split_pieces(path, '/');
    if path.len() > 0 && path[0] == '/' {
        crate::text::lemma_first_char_is(path, '/', 0);
        crate::text::lemma_split_pieces(path.skip(1), '/');
        assert(steps[0] =~= path.take(0));
    }
    if path.len() > 2 && path[0] != '/' && path[1] != '/' && path[2] == '/' {
        crate::text::lemma_first_char_is(path, '/', 2);
        crate::text::lemma_split_pieces(path.skip(3), '/');
        assert(steps[0] =~= path.take(2));
        assert(path.take(2) =~= seq![path[0], path[1]]);
    }
}

proof fn lemma_absolute(steps: Seq<Seq<char>>)
    requires
        steps.len() > 0,
        steps[0].len() == 0,
    ensures
        depth_of(steps) is None,
    decreases steps.len(),
{
    if steps.len() > 1 {
        lemma_absolute(steps.drop_last());
    }
}

proof fn lemma_upward(steps: Seq<Seq<char>>)
    requires
        steps.len() > 0,
        steps[0] == seq!['.', '.'],
    ensures
        depth_of(steps) is None,
    decreases steps.len(),
{
    if steps.len() > 1 {
        lemma_upward(steps.drop_last());
    } else {
        assert(steps.drop_last() =~= Seq::<Seq<char>>::empty());
        assert(depth_of(steps.drop_last()) == Some(0nat));
        assert(steps.last() == seq!['.', '.']);
        assert(steps.last().len() == 2);
        assert(seq!['.'].len() == 1);
    }
}

/// Steps that stay in place change no depth, a name leads one level down, and `..`
/// leads one level up, though never up from the page.
pub proof fn law_steps_change_the_depth(steps: Seq<Seq<char>>, name: Seq<char>)
    requires
        steps.len() > 0,
        name.len() > 0,
        name != seq!['.'],
        name != seq!['.', '.'],
    ensures
        depth_of(steps.push(seq!['.'])) == depth_of(steps),
        depth_of(steps) matches Some(depth) ==> depth_of(steps.push(name)) == Some(
            (depth + 1) as nat,
        ) && depth_of(steps.push(name).push(seq!['.', '.'])) == Some(depth),
        depth_of(steps) == Some(0nat) ==> depth_of(steps.push(seq!['.', '.'])) is None,
        depth_of(seq![name]) == Some(1nat),
{
    assert(steps.push(seq!['.']).drop_last() =~= steps);
    assert(steps.push(name).drop_last() =~= steps);
    assert(steps.push(seq!['.', '.']).drop_last() =~= steps);
    assert(steps.push(name).push(seq!['.', '.']).drop_last() =~= steps.push(name));
    assert(seq![name].drop_last() =~= Seq::<Seq<char>>::empty());
    assert(depth_of(Seq::<Seq<char>>::empty()) == Some(0nat));
    assert(seq!['.', '.'].len() == 2 && seq!['.'].len() == 1);
}

/// The versions that a page links to are those of all its links, wherever on the page
/// they stand.
pub proof fn law_every_link_is_read(html: Seq<char>, prefix: Seq<char>, version: Seq<char>)
    ensures
        linked_versions(html, prefix).contains(version) <==> exists|at: int|
            0 <= at && at + 6 <= html.len() && #[trigger] html.subrange(at, at + 6) == seq![
                'h',
                'r',
                'e',
                'f',
                '=',
                '"',
            ] && linked_version(html.skip(at + 6), prefix) == Some(version),
{
    let pick = |chunk: Seq<char>| linked_version(chunk, prefix);
    let pieces = crate::text::split(html, link_mark());
    let chunks = pieces.skip(1);
    crate::text::law_splitting_cuts_at_every_separator(html, link_mark());
    lemma_links(html, prefix, version);
    if linked_versions(html, prefix).contains(version) {
        chunks.lemma_filter_map_contains(pick, version);
        let chunk = choose|chunk: Seq<char>| #[trigger]
            chunks.contains(chunk) && pick(chunk) == Some(version);
        let k = choose|k: int| 0 <= k < chunks.len() && chunks[k] == chunk;
        assert(pieces[k + 1] == chunk);
        assert(has_linking_piece(html, prefix, version));
        let at = choose|at: int| links_at(html, prefix, version, at);
        assert(links_at(html, prefix, version, at));
        assert(html.subrange(at, at + 6) == link_mark());
    }
    if exists|at: int|
        0 <= at && at + 6 <= html.len() && #[trigger] html.subrange(at, at + 6) == seq![
            'h',
            'r',
            'e',
            'f',
            '=',
            '"',
        ] && linked_version(html.skip(at + 6), prefix) == Some(version) {
        let at = choose|at: int|
            0 <= at && at + 6 <= html.len() && #[trigger] html.subrange(at, at + 6) == seq![
                'h',
                'r',
                'e',
                'f',
                '=',
                '"',
            ] && linked_version(html.skip(at + 6), prefix) == Some(version);
        assert(links_at(html, prefix, version, at));
        let k = choose|k: int|
            1 <= k < pieces.len() && linked_version(#[trigger] pieces[k], prefix) == Some(version);
        assert(chunks[k - 1] == pieces[k]);
        lemma_picked(chunks, pick, k - 1, version);
    }
}

/// The page links to the version at the given place.
spec fn links_at(html: Seq<char>, prefix: Seq<char>, version: Seq<char>, at: int) -> bool {
    0 <= at && at + 6 <= html.len() && html.subrange(at, at + 6) == link_mark() && linked_version(
        html.skip(at + 6),
        prefix,
    ) == Some(version)
}

/// What the links of a page part it into holds a link to the version.
spec fn has_linking_piece(html: Seq<char>, prefix: Seq<char>, version: Seq<char>) -> bool {
    exists|k: int|
        1 <= k < crate::text::split(html, link_mark()).len() && linked_version(
            #[trigger] crate::text::split(html, link_mark())[k],
            prefix,
        ) == Some(version)
}

proof fn lemma_picked(
    chunks: Seq<Seq<char>>,
    pick: spec_fn(Seq<char>) -> Option<Seq<char>>,
    k: int,
    version: Seq<char>,
)
    requires
        0 <= k < chunks.len(),
        pick(chunks[k]) == Some(version),
    ensures
        chunks.filter_map(pick).contains(version),
{
    let before = chunks.take(k);
    let one = seq![chunks[k]];
    let after = chunks.skip(k + 1);
    crate::text::lemma_filter_map_concat(before, one, pick);
    crate::text::lemma_filter_map_concat(before + one, after, pick);
    Seq::lemma_filter_map_singleton(chunks[k], pick);
    assert(chunks =~= before + one + after);
    let at = before.filter_map(pick).len() as int;
    assert(chunks.filter_map(pick)[at] == version);
}

/// What follows a link up to the next stands for the same version as all that
/// follows.
proof fn lemma_piece_is_enough(html: Seq<char>, prefix: Seq<char>)
    ensures
        linked_version(crate::text::split(html, link_mark())[0], prefix) == linked_version(
            html,
            prefix,
        ),
{
    crate::text::lemma_first_from(html, link_mark(), 0);
    if let Some(next) = crate::text::first(html, link_mark()) {
        let piece = html.take(next);
        assert(crate::text::split(html, link_mark())[0] == piece);
        assert(html.subrange(next, next + 6) == link_mark());
        assert forall|i: int| 0 <= i < 6 implies html[next + i] == #[trigger] link_mark()[i] by {
            assert(html.subrange(next, next + 6)[i] == link_mark()[i]);
        }
        crate::text::lemma_first_char(piece, '"');
        match crate::text::first(piece, seq!['"']) {
            Some(end) => {
                assert forall|i: int| 0 <= i < end implies html[i] != '"' by {
                    assert(html[i] == piece[i]);
                }
                assert(html[end] == piece[end]);
                crate::text::lemma_first_char_is(html, '"', end);
                assert(html.take(end) =~= piece.take(end));
            },
            None => {
                assert(link_mark()[0] != '"' && link_mark()[1] != '"' && link_mark()[2] != '"'
                    && link_mark()[3] != '"' && link_mark()[4] == '=' && link_mark()[5] == '"');
                assert(html[next + 5] == '"');
                assert forall|i: int| 0 <= i < next + 5 implies html[i] != '"' by {
                    if i < next {
                        assert(html[i] == piece[i]);
                    } else {
                        assert(html[next + (i - next)] == link_mark()[i - next]);
                    }
                }
                crate::text::lemma_first_char_is(html, '"', next + 5);
                assert(html.take(next + 5).last() == html[next + 4]);
            },
        }
    }
}

proof fn lemma_links(html: Seq<char>, prefix: Seq<char>, version: Seq<char>)
    ensures
        has_linking_piece(html, prefix, version) <==> exists|at: int|
            links_at(html, prefix, version, at),
    decreases html.len(),
{
    let mark = link_mark();
    let pieces = crate::text::split(html, mark);
    crate::text::lemma_first_from(html, mark, 0);
    match crate::text::first(html, mark) {
        None => {
            if exists|at: int| links_at(html, prefix, version, at) {
                let at = choose|at: int| links_at(html, prefix, version, at);
                assert(crate::text::occurs_at(html, mark, at));
            }
        },
        Some(next) => {
            let tail = html.skip(next + 6);
            let rest = crate::text::split(tail, mark);
            assert(pieces =~= seq![html.take(next)] + rest);
            crate::text::law_splitting_cuts_at_every_separator(tail, mark);
            lemma_piece_is_enough(tail, prefix);
            lemma_links(tail, prefix, version);
            assert(html.subrange(next, next + 6) == mark);
            if has_linking_piece(html, prefix, version) {
                let k = choose|k: int|
                    1 <= k < pieces.len() && linked_version(#[trigger] pieces[k], prefix) == Some(
                        version,
                    );
                assert(pieces[k] == rest[k - 1]);
                if k == 1 {
                    assert(links_at(html, prefix, version, next));
                } else {
                    assert(has_linking_piece(tail, prefix, version));
                    let at = choose|at: int| links_at(tail, prefix, version, at);
                    let place = next + 6 + at;
                    assert(html.subrange(place, place + 6) =~= tail.subrange(at, at + 6));
                    assert(html.skip(place + 6) =~= tail.skip(at + 6));
                    assert(links_at(html, prefix, version, place));
                }
            }
            if exists|at: int| links_at(html, prefix, version, at) {
                let at = choose|at: int| links_at(html, prefix, version, at);
                assert(crate::text::occurs_at(html, mark, at));
                assert(at >= next);
                if at == next {
                    assert(pieces[1] == rest[0]);
                    assert(has_linking_piece(html, prefix, version));
                } else {
                    if at < next + 6 {
                        assert(html.subrange(next, next + 6)[at - next] == html[at]);
                        assert(html.subrange(at, at + 6)[0] == html[at]);
                        assert(mark[0] == 'h');
                        assert(mark[at - next] != 'h');
                    }
                    let place = at - next - 6;
                    assert(tail.subrange(place, place + 6) =~= html.subrange(at, at + 6));
                    assert(tail.skip(place + 6) =~= html.skip(at + 6));
                    assert(links_at(tail, prefix, version, place));
                    let k = choose|k: int|
                        1 <= k < rest.len() && linked_version(#[trigger] rest[k], prefix) == Some(
                            version,
                        );
                    assert(pieces[k + 1] == rest[k]);
                    assert(has_linking_piece(html, prefix, version));
                }
            }
        },
    }
}

/// A link to a directory named with the prefix and a plain version stands for that
/// version exactly where the steps before the name lead to the page's own level.
pub proof fn law_links_count_by_level(
    steps: Seq<Seq<char>>,
    prefix: Seq<char>,
    version: Seq<char>,
    rest: Seq<char>,
)
    requires
        crate::version::is_plain(version),
        forall|i: int| 0 <= i < prefix.len() ==> #[trigger] prefix[i] != '"' && prefix[i] != '/',
        forall|i: int, j: int|
            0 <= i < steps.len() && 0 <= j < steps[i].len() ==> #[trigger] steps[i][j] != '"'
                && steps[i][j] != '/',
    ensures
        linked_version(
            crate::text::join(steps.push(prefix + version), seq!['/']) + seq!['/', '"'] + rest,
            prefix,
        ) == (if depth_of(steps) == Some(0nat) {
            Some(version)
        } else {
            None
        }),
{
    let name = prefix + version;
    let all = steps.push(name);
    let path = crate::text::join(all, seq!['/']);
    lemma_plain_chars(version);
    assert forall|j: int| 0 <= j < name.len() implies #[trigger] name[j] != '"' && name[j]
        != '/' by {
        if j >= prefix.len() {
            assert(name[j] == version[j - prefix.len()]);
        }
    }
    assert forall|i: int, j: int| 0 <= i < all.len() && 0 <= j < all[i].len() implies
        #[trigger] all[i][j] != '"' && all[i][j] != '/' by {
        if i < steps.len() {
            assert(steps[i][j] != '"');
        }
    }
    lemma_joined_without(all, '"');
    lemma_link_target(path, rest);
    assert(path + seq!['/', '"'] + rest =~= path.push('/').push('"') + rest);
    crate::text::lemma_split_join(all, '/');
    assert(all.drop_last() =~= steps);
    assert(name.skip(prefix.len() as int) =~= version);
    assert(prefix.is_prefix_of(name));
}

proof fn lemma_joined_without(list: Seq<Seq<char>>, c: char)
    requires
        c != '/',
        forall|i: int, j: int|
            0 <= i < list.len() && 0 <= j < list[i].len() ==> #[trigger] list[i][j] != c,
    ensures
        forall|i: int|
            0 <= i < crate::text::join(list, seq!['/']).len() ==> #[trigger] crate::text::join(
                list,
                seq!['/'],
            )[i] != c,
    decreases list.len(),
{
    if list.len() > 0 {
        let front = list.drop_last();
        assert forall|i: int, j: int| 0 <= i < front.len() && 0 <= j < front[i].len() implies
            #[trigger] front[i][j] != c by {
            assert(list[i][j] != c);
        }
        lemma_joined_without(front, c);
        let whole = crate::text::join(list, seq!['/']);
        let before = crate::text::join(front, seq!['/']);
        let last = list.len() - 1;
        assert forall|i: int| 0 <= i < whole.len() implies #[trigger] whole[i] != c by {
            if list.len() == 1 {
                assert(list[last][i] != c);
            } else if i < before.len() {
                assert(whole[i] == before[i]);
            } else if i > before.len() {
                assert(whole[i] == list[last][i - before.len() - 1]);
            }
        }
    }
}

/// No steps stay in place, and so does an empty step behind others; a link that
/// begins with an empty step is absolute.
pub proof fn law_empty_steps_stay_in_place(steps: Seq<Seq<char>>)
    ensures
        depth_of(Seq::empty()) == Some(0nat),
        depth_of(seq![seq!['.']]) == Some(0nat),
        depth_of(seq![Seq::empty()]) is None,
        steps.len() > 0 ==> depth_of(steps.push(Seq::empty())) == depth_of(steps),
        steps.len() > 0 && depth_of(steps) is None ==> depth_of(steps.push(seq!['.'])) is None,
{
    assert(depth_of(Seq::<Seq<char>>::empty()) == Some(0nat));
    assert(seq![seq!['.']].drop_last() =~= Seq::<Seq<char>>::empty());
    assert(seq![Seq::<char>::empty()].drop_last() =~= Seq::<Seq<char>>::empty());
    assert(steps.push(Seq::empty()).drop_last() =~= steps);
    assert(steps.push(seq!['.']).drop_last() =~= steps);
}

/// The releases and the keys of an index are modelled one by one.
pub proof fn law_models_hold_every_release(
    releases: Seq<(String, bool)>,
    entries: Seq<(String, Json)>,
)
    ensures
        releases_of(releases).len() == releases.len(),
        forall|i: int|
            0 <= i < releases.len() ==> #[trigger] releases_of(releases)[i] == (
                releases[i].0@,
                releases[i].1,
            ),
        keys_of(entries).len() == entries.len(),
        forall|i: int| 0 <= i < entries.len() ==> #[trigger] keys_of(entries)[i] == entries[i].0@,
{
}

/// No two neighbours among the versions of a page are equal.
pub proof fn law_published_versions_do_not_repeat(html: Seq<char>, prefix: Seq<char>)
    ensures
        forall|i: int|
            0 <= i < published_versions(html, prefix).len() - 1 ==> published_versions(
                html,
                prefix,
            )[i] != #[trigger] published_versions(html, prefix)[i + 1],
{
    crate::version::law_no_neighbours_repeat(
        crate::version::newest_first_of(linked_versions(html, prefix)),
    );
}

/// The model of a refusal tells it apart from all others.
pub proof fn law_refusals_are_modelled(error: SelectError)
    ensures
        match error {
            SelectError::EmptyIndex => error@ == Refusal::EmptyIndex,
            SelectError::NoLts => error@ == Refusal::NoLts,
            SelectError::NotNode { wanted } => error@ == Refusal::NotNode(wanted@),
            SelectError::NotPhp { request } => error@ == Refusal::NotPhp(request@),
        },
{
}

} // verus!
