//! Version resolution.
//!
//! Every recipe validates the requested version against the project's own
//! release index before a single byte of source is downloaded, so an
//! unofficial or mistyped version fails immediately rather than 40 minutes into
//! a compile.
//!
//! Resolution asks questions that only the network can answer. `resolve` gives
//! the first of them, or the outcome; the answer to each question gives the next.

use crate::json::Json;
use crate::number::write_decimal;
use crate::recipe::{Resolver, VersionSpec};
use crate::template::{TemplateError, Vars};
use crate::text::same_text;
use vstd::prelude::*;
use vstd::string::*;

pub use crate::select::{
    catalogue, collect_tags, newest, scrape_version_dirs, select_node, select_php, strip_all,
    NodeRelease, SelectError,
};
pub use crate::version::{is_plain_version, shortlist, version_key};

verus! {

/// A version that was resolved.
#[derive(Debug)]
pub struct Resolved {
    /// Canonical version as the project writes it (`v22.11.0`, `3.12.7`, `1.3.14`).
    pub version: String,
    /// Version without any leading `v`.
    pub bare: String,
    /// Upstream git tag, when the project is resolved from GitHub releases.
    pub upstream_tag: Option<String>,
    /// Digest of the source archive, when the release index publishes one.
    pub source_sha256: Option<String>,
}

/// The model of `Resolved`.
pub struct Release {
    pub version: Seq<char>,
    pub bare: Seq<char>,
    pub upstream_tag: Option<Seq<char>>,
    pub source_sha256: Option<Seq<char>>,
}

impl View for Resolved {
    type V = Release;

    open spec fn view(&self) -> Release {
        Release {
            version: self.version@,
            bare: self.bare@,
            upstream_tag: crate::text::text_of(self.upstream_tag),
            source_sha256: crate::text::text_of(self.source_sha256),
        }
    }
}

/// A release as GitHub describes it.
#[derive(Debug)]
pub struct GithubRelease {
    pub tag_name: String,
    pub draft: bool,
    pub prerelease: bool,
}

/// Why a version was not resolved.
#[derive(Debug)]
pub enum ResolveError {
    /// The recipe leaves out a setting that its resolver needs.
    Unset { resolver: Resolver, setting: Setting },
    /// A document could not be fetched.
    Fetch { url: String, cause: String },
    /// A document could not be read.
    Parse { url: String, cause: String },
    /// An answer broke off, or was not what it should be.
    Body { cause: String },
    /// The Node.js index is empty.
    NoReleases { url: String },
    /// The index at `url` holds no version that answers the request.
    Select { url: String, reason: SelectError },
    /// The page links to no version directory.
    NoDirectories { listing: String },
    /// No published version answers the request.
    NoMatch { request: String, listing: String },
    /// The address of a source archive could not be written.
    Template { error: TemplateError },
    /// None of the versions that answer the request has a source archive.
    NoArchive { request: String },
    /// There is no such GitHub release.
    NotARelease { wanted: String, repo: String, cause: String },
    /// The GitHub release is not published yet.
    Draft { wanted: String, repo: String },
    /// There is no such git tag.
    NotATag { tag: String, repo: String, cause: String },
    /// No git tag stands for a version.
    NoTags { repo: String, prefix: String },
}

/// A setting of a recipe that a resolver needs.
#[derive(Debug, Clone, Copy, PartialEq, Eq, Structural)]
pub enum Setting {
    Index,
    Listing,
    Probe,
    Repo,
}

/// The name of a resolver in a recipe.
pub open spec fn resolver_name(resolver: Resolver) -> Seq<char> {
    match resolver {
        Resolver::Nodejs => "nodejs"@,
        Resolver::Directory => "directory"@,
        Resolver::Github => "github"@,
        Resolver::Php => "php"@,
    }
}

/// The name of a setting in a recipe.
pub open spec fn setting_name(setting: Setting) -> Seq<char> {
    match setting {
        Setting::Index => "index"@,
        Setting::Listing => "listing"@,
        Setting::Probe => "probe"@,
        Setting::Repo => "repo"@,
    }
}

impl ResolveError {
    /// The error in words.
    pub open spec fn words(self) -> Seq<char> {
        match self {
            ResolveError::Unset { resolver, setting } => "recipe uses the "@ + resolver_name(
                resolver,
            ) + " resolver but sets no `version."@ + setting_name(setting) + "`"@,
            ResolveError::Fetch { url, cause } => "fetching "@ + url@ + ": "@ + cause@,
            ResolveError::Parse { url, cause } => "parsing "@ + url@ + ": "@ + cause@,
            ResolveError::Body { cause } => cause@,
            ResolveError::NoReleases { url } => url@ + " listed no releases"@,
            ResolveError::Select { url, reason } => "see "@ + url@ + ": "@ + reason.words(),
            ResolveError::NoDirectories { listing } => "no version directories found in "@
                + listing@,
            ResolveError::NoMatch { request, listing } => "'"@ + request@
                + "' does not match any published release (see "@ + listing@ + ")"@,
            ResolveError::Template { error } => error.words(),
            ResolveError::NoArchive { request } => "no published source archive found for '"@
                + request@ + "'"@,
            ResolveError::NotARelease { wanted, repo, cause } => "'"@ + wanted@
                + "' is not an official release of "@ + repo@ + " (see https://github.com/"@ + repo@
                + "/releases): "@ + cause@,
            ResolveError::Draft { wanted, repo } => "'"@ + wanted@ + "' is a draft release of "@
                + repo@,
            ResolveError::NotATag { tag, repo, cause } => "'"@ + tag@ + "' is not a tag of "@
                + repo@ + " (see https://github.com/"@ + repo@ + "/tags): "@ + cause@,
            ResolveError::NoTags { repo, prefix } => "no version tags found on "@ + repo@
                + " with prefix '"@ + prefix@ + "'"@,
        }
    }

    /// The error in words, what caused it after a colon.
    pub fn message(&self) -> (text: String)
        ensures
            text@ == self.words(),
    {
        match self {
            ResolveError::Unset { resolver, setting } => {
                let mut text = "recipe uses the ".to_owned();
                text.append(
                    match resolver {
                        Resolver::Nodejs => "nodejs",
                        Resolver::Directory => "directory",
                        Resolver::Github => "github",
                        Resolver::Php => "php",
                    },
                );
                text.append(" resolver but sets no `version.");
                text.append(
                    match setting {
                        Setting::Index => "index",
                        Setting::Listing => "listing",
                        Setting::Probe => "probe",
                        Setting::Repo => "repo",
                    },
                );
                text.append("`");
                text
            },
            ResolveError::Fetch { url, cause } => {
                let mut text = "fetching ".to_owned();
                text.append(url.as_str());
                text.append(": ");
                text.append(cause.as_str());
                text
            },
            ResolveError::Parse { url, cause } => {
                let mut text = "parsing ".to_owned();
                text.append(url.as_str());
                text.append(": ");
                text.append(cause.as_str());
                text
            },
            ResolveError::Body { cause } => cause.clone(),
            ResolveError::NoReleases { url } => {
                let mut text = url.clone();
                text.append(" listed no releases");
                text
            },
            ResolveError::Select { url, reason } => {
                let mut text = "see ".to_owned();
                text.append(url.as_str());
                text.append(": ");
                text.append(reason.message().as_str());
                text
            },
            ResolveError::NoDirectories { listing } => {
                let mut text = "no version directories found in ".to_owned();
                text.append(listing.as_str());
                text
            },
            ResolveError::NoMatch { request, listing } => {
                let mut text = "'".to_owned();
                text.append(request.as_str());
                text.append("' does not match any published release (see ");
                text.append(listing.as_str());
                text.append(")");
                text
            },
            ResolveError::Template { error } => error.message(),
            ResolveError::NoArchive { request } => {
                let mut text = "no published source archive found for '".to_owned();
                text.append(request.as_str());
                text.append("'");
                text
            },
            ResolveError::NotARelease { wanted, repo, cause } => {
                let mut text = "'".to_owned();
                text.append(wanted.as_str());
                text.append("' is not an official release of ");
                text.append(repo.as_str());
                text.append(" (see https://github.com/");
                text.append(repo.as_str());
                text.append("/releases): ");
                text.append(cause.as_str());
                text
            },
            ResolveError::Draft { wanted, repo } => {
                let mut text = "'".to_owned();
                text.append(wanted.as_str());
                text.append("' is a draft release of ");
                text.append(repo.as_str());
                text
            },
            ResolveError::NotATag { tag, repo, cause } => {
                let mut text = "'".to_owned();
                text.append(tag.as_str());
                text.append("' is not a tag of ");
                text.append(repo.as_str());
                text.append(" (see https://github.com/");
                text.append(repo.as_str());
                text.append("/tags): ");
                text.append(cause.as_str());
                text
            },
            ResolveError::NoTags { repo, prefix } => {
                let mut text = "no version tags found on ".to_owned();
                text.append(repo.as_str());
                text.append(" with prefix '");
                text.append(prefix.as_str());
                text.append("'");
                text
            },
        }
    }
}

/// What comes next in a resolution: the outcome, or a question.
#[derive(Debug)]
pub enum Progress {
    Done(Resolved),
    Failed(ResolveError),
    /// What does the Node.js release index hold?
    NodeIndex(NodeQuery),
    /// What does a directory listing hold?
    Listing(ListingQuery),
    /// Does a source archive exist?
    Probe(ProbeQuery),
    /// What is the latest GitHub release?
    LatestRelease(LatestQuery),
    /// What is the GitHub release of a tag?
    TaggedRelease(TaggedQuery),
    /// Does a git tag exist?
    TagRef(TagRefQuery),
    /// What is on a page of git tags?
    TagPage(TagPageQuery),
    /// What does the PHP release index hold?
    PhpIndex(PhpQuery),
}

impl Progress {
    /// The resolution is over, with this outcome.
    pub open spec fn is_done(self, release: Release) -> bool {
        self matches Progress::Done(resolved) && resolved@ == release
    }
}

/// Asks for the release index of Node.js.
#[derive(Debug)]
pub struct NodeQuery {
    pub url: String,
    pub request: String,
}

/// Asks for a directory listing.
#[derive(Debug)]
pub struct ListingQuery {
    pub url: String,
    pub probe: String,
    pub prefix: String,
    pub request: String,
}

/// Asks whether the source archive of a candidate exists.
#[derive(Debug)]
pub struct ProbeQuery {
    pub url: String,
    pub candidate: String,
    pub probe: String,
    pub request: String,
    /// The candidates that are asked for after this one.
    pub remaining: Vec<String>,
}

/// Asks for the latest release of a repository.
#[derive(Debug)]
pub struct LatestQuery {
    pub url: String,
    pub prefix: String,
}

/// Asks for the release of a tag.
#[derive(Debug)]
pub struct TaggedQuery {
    pub url: String,
    pub repo: String,
    pub prefix: String,
    pub wanted: String,
}

/// Asks whether a tag exists.
#[derive(Debug)]
pub struct TagRefQuery {
    pub url: String,
    pub repo: String,
    pub prefix: String,
    pub tag: String,
}

/// Asks for a page of tags.
#[derive(Debug)]
pub struct TagPageQuery {
    pub url: String,
    pub repo: String,
    pub prefix: String,
    pub page: u64,
    /// The versions on the pages before this one.
    pub names: Vec<String>,
}

/// Asks for the release index of PHP.
#[derive(Debug)]
pub struct PhpQuery {
    pub url: String,
    pub request: String,
}

/// Begins the resolution of a version.
pub fn resolve(spec: &VersionSpec, request: &str) -> (progress: Progress)
    ensures
        match spec.resolver {
            Resolver::Nodejs => begins_nodejs(progress, *spec, request@),
            Resolver::Directory => begins_directory(progress, *spec, request@),
            Resolver::Github => begins_github(progress, *spec, request@),
            Resolver::Php => begins_php(progress, *spec, request@),
        },
{
    match spec.resolver {
        Resolver::Nodejs => nodejs(spec, request),
        Resolver::Directory => directory(spec, request),
        Resolver::Github => github(spec, request),
        Resolver::Php => php(spec, request),
    }
}

// -- nodejs.org/dist/index.json ----------------------------------------------

/// What a Node.js version resolves to.
pub open spec fn node_release(version: Seq<char>) -> Release {
    Release {
        version,
        bare: crate::text::without_prefixes(version, "v"@),
        upstream_tag: None,
        source_sha256: None,
    }
}

/// `progress` is the first question of a resolution against the Node.js release index.
pub open spec fn begins_nodejs(progress: Progress, spec: VersionSpec, request: Seq<char>) -> bool {
    match spec.index {
        None => progress matches Progress::Failed(
            ResolveError::Unset { resolver: Resolver::Nodejs, setting: Setting::Index },
        ),
        Some(url) => progress matches Progress::NodeIndex(query) && query.url@ == url@
            && query.request@ == request,
    }
}

/// Begins a resolution against the Node.js release index.
pub fn nodejs(spec: &VersionSpec, request: &str) -> (progress: Progress)
    ensures
        begins_nodejs(progress, *spec, request@),
{
    match &spec.index {
        None => Progress::Failed(
            ResolveError::Unset { resolver: Resolver::Nodejs, setting: Setting::Index },
        ),
        Some(url) => Progress::NodeIndex(
            NodeQuery { url: url.clone(), request: request.to_owned() },
        ),
    }
}

impl NodeQuery {
    /// The release index holds `releases`.
    pub fn answer(self, releases: &Vec<NodeRelease>) -> (progress: Progress)
        ensures
            if releases@.len() == 0 {
                progress matches Progress::Failed(ResolveError::NoReleases { url }) && url@
                    == self.url@
            } else {
                match crate::select::selected_node(
                    releases@.map_values(
                        |release: NodeRelease| (release.version@, crate::select::has_lts(release)),
                    ),
                    self.request@,
                ) {
                    Ok(version) => progress.is_done(node_release(version)),
                    Err(refusal) => progress matches Progress::Failed(
                        ResolveError::Select { url, reason },
                    ) && url@ == self.url@ && reason@ == refusal,
                }
            },
    {
        if releases.len() == 0 {
            return Progress::Failed(ResolveError::NoReleases { url: self.url });
        }
        let list = catalogue(releases);
        match select_node(&list, self.request.as_str()) {
            Ok(version) => Progress::Done(
                Resolved {
                    bare: strip_all(version.as_str(), "v"),
                    version,
                    upstream_tag: None,
                    source_sha256: None,
                },
            ),
            Err(reason) => Progress::Failed(ResolveError::Select { url: self.url, reason }),
        }
    }

    /// The release index could not be fetched.
    pub fn unreachable(self, cause: String) -> (error: ResolveError)
        ensures
            error matches ResolveError::Fetch { url, cause: stated } && url@ == self.url@ && stated@
                == cause@,
    {
        ResolveError::Fetch { url: self.url, cause }
    }

    /// What was fetched is no release index.
    pub fn unreadable(self, cause: String) -> (error: ResolveError)
        ensures
            error matches ResolveError::Parse { url, cause: stated } && url@ == self.url@ && stated@
                == cause@,
    {
        ResolveError::Parse { url: self.url, cause }
    }
}

// -- directory listing (python.org, postgresql.org, archive.mariadb.org) -----

/// How many candidates are asked for at most.
pub const MAX_PROBES: usize = 20;

/// A version as a request writes it, without the prefix and without any leading `v`.
pub open spec fn bare_request(request: Seq<char>, prefix: Seq<char>) -> Seq<char> {
    crate::text::without_prefixes(crate::text::without_prefixes(request, prefix), "v"@)
}

/// The address of a candidate's source archive.
pub open spec fn archive_url(probe: Seq<char>, candidate: Seq<char>) -> Result<
    Seq<char>,
    crate::template::Flaw,
> {
    crate::template::expansion(map!["candidate"@ => candidate], probe)
}

/// What a candidate resolves to.
pub open spec fn plain_release(version: Seq<char>, source_sha256: Option<Seq<char>>) -> Release {
    Release { version, bare: version, upstream_tag: None, source_sha256 }
}

/// `progress` asks for the first of the candidates, and keeps the others for later.
pub open spec fn asks_next(
    progress: Progress,
    candidates: Seq<Seq<char>>,
    probe: Seq<char>,
    request: Seq<char>,
) -> bool {
    if candidates.len() == 0 {
        progress matches Progress::Failed(ResolveError::NoArchive { request: stated }) && stated@
            == request
    } else {
        match archive_url(probe, candidates[0]) {
            Ok(url) => progress matches Progress::Probe(query) && query.url@ == url
                && query.candidate@ == candidates[0] && query.probe@ == probe && query.request@
                == request && crate::text::texts(query.remaining@) == candidates.drop_first(),
            Err(_) => progress matches Progress::Failed(ResolveError::Template { error })
                && error.arises(map!["candidate"@ => candidates[0]], probe),
        }
    }
}

/// `progress` is the first question of a resolution against a directory listing.
pub open spec fn begins_directory(
    progress: Progress,
    spec: VersionSpec,
    request: Seq<char>,
) -> bool {
    match (spec.listing, spec.probe) {
        (None, _) => progress matches Progress::Failed(
            ResolveError::Unset { resolver: Resolver::Directory, setting: Setting::Listing },
        ),
        (Some(_), None) => progress matches Progress::Failed(
            ResolveError::Unset { resolver: Resolver::Directory, setting: Setting::Probe },
        ),
        (Some(url), Some(probe)) => progress matches Progress::Listing(query) && query.url@
            == url@ && query.probe@ == probe@ && query.prefix@ == (match spec.dir_prefix {
            Some(prefix) => prefix@,
            None => ""@,
        }) && query.request@ == request,
    }
}

/// Begins a resolution against a directory listing.
pub fn directory(spec: &VersionSpec, request: &str) -> (progress: Progress)
    ensures
        begins_directory(progress, *spec, request@),
{
    match (&spec.listing, &spec.probe) {
        (None, _) => Progress::Failed(
            ResolveError::Unset { resolver: Resolver::Directory, setting: Setting::Listing },
        ),
        (Some(_), None) => Progress::Failed(
            ResolveError::Unset { resolver: Resolver::Directory, setting: Setting::Probe },
        ),
        (Some(url), Some(probe)) => Progress::Listing(
            ListingQuery {
                url: url.clone(),
                probe: probe.clone(),
                prefix: match &spec.dir_prefix {
                    Some(prefix) => prefix.clone(),
                    None => "".to_owned(),
                },
                request: request.to_owned(),
            },
        ),
    }
}

impl ListingQuery {
    /// The listing is the page `html`. A directory can exist while the final
    /// source archive does not: release candidates often live in the same
    /// directory as the eventual release. So the candidates are asked for.
    pub fn answer(self, html: &str) -> (progress: Progress)
        ensures
            ({
                let published = crate::select::published_versions(html@, self.prefix@);
                let wanted = bare_request(self.request@, self.prefix@);
                let short = crate::version::shortlist_of(published, wanted);
                if published.len() == 0 {
                    progress matches Progress::Failed(ResolveError::NoDirectories { listing })
                        && listing@ == self.url@
                } else if short.len() == 0 {
                    progress matches Progress::Failed(ResolveError::NoMatch { request, listing })
                        && request@ == wanted && listing@ == self.url@
                } else {
                    asks_next(
                        progress,
                        short.take(
                            if short.len() < MAX_PROBES {
                                short.len() as int
                            } else {
                                MAX_PROBES as int
                            },
                        ),
                        self.probe@,
                        wanted,
                    )
                }
            }),
    {
        let published = scrape_version_dirs(html, self.prefix.as_str());
        if published.len() == 0 {
            return Progress::Failed(ResolveError::NoDirectories { listing: self.url });
        }
        let stripped = strip_all(self.request.as_str(), self.prefix.as_str());
        let request = strip_all(stripped.as_str(), "v");
        let mut short = shortlist(published, request.as_str());
        if short.len() == 0 {
            return Progress::Failed(ResolveError::NoMatch { request, listing: self.url });
        }
        let ghost all = crate::text::texts(short@);
        if short.len() > MAX_PROBES {
            short.truncate(MAX_PROBES);
        }
        assert(crate::text::texts(short@) =~= all.take(
            if all.len() < MAX_PROBES {
                all.len() as int
            } else {
                MAX_PROBES as int
            },
        ));
        ask(short, self.probe, request)
    }

    /// The listing could not be fetched.
    pub fn unreachable(self, cause: String) -> (error: ResolveError)
        ensures
            error matches ResolveError::Fetch { url, cause: stated } && url@ == self.url@ && stated@
                == cause@,
    {
        ResolveError::Fetch { url: self.url, cause }
    }

    /// The listing broke off, or is no text.
    pub fn unreadable(self, cause: String) -> (error: ResolveError)
        ensures
            error matches ResolveError::Body { cause: stated } && stated@ == cause@,
    {
        ResolveError::Body { cause }
    }
}

/// Asks for the first of the candidates.
fn ask(candidates: Vec<String>, probe: String, request: String) -> (progress: Progress)
    ensures
        asks_next(progress, crate::text::texts(candidates@), probe@, request@),
{
    let mut remaining = candidates;
    if remaining.len() == 0 {
        return Progress::Failed(ResolveError::NoArchive { request });
    }
    let candidate = remaining.remove(0);
    assert(candidate@ == crate::text::texts(candidates@)[0]);
    assert(crate::text::texts(remaining@) =~= crate::text::texts(candidates@).drop_first());
    let mut vars = Vars::new();
    vars.set("candidate", candidate.as_str());
    assert(vars@ =~= map!["candidate"@ => candidate@]);
    match vars.expand(probe.as_str()) {
        Ok(url) => Progress::Probe(ProbeQuery { url, candidate, probe, request, remaining }),
        Err(error) => Progress::Failed(ResolveError::Template { error }),
    }
}

impl ProbeQuery {
    /// The source archive exists, or it does not: then the next candidate is
    /// asked for.
    pub fn answer(self, found: bool) -> (progress: Progress)
        ensures
            if found {
                progress.is_done(plain_release(self.candidate@, None))
            } else {
                asks_next(
                    progress,
                    crate::text::texts(self.remaining@),
                    self.probe@,
                    self.request@,
                )
            },
    {
        if found {
            Progress::Done(
                Resolved {
                    bare: self.candidate.clone(),
                    version: self.candidate,
                    upstream_tag: None,
                    source_sha256: None,
                },
            )
        } else {
            ask(self.remaining, self.probe, self.request)
        }
    }
}

// -- GitHub releases ---------------------------------------------------------

/// The media type that the GitHub API is asked for.
pub const GITHUB_ACCEPT: &'static str = "application/vnd.github+json";

/// The address of a repository in the GitHub API.
pub open spec fn api_url(repo: Seq<char>) -> Seq<char> {
    "https://api.github.com/repos/"@ + repo
}

/// The value of the `Authorization` header: anonymous GitHub API access is rate
/// limited to 60 requests an hour, which CI blows through, so a token is used
/// when one is present.
pub fn authorization(github_token: Option<String>, gh_token: Option<String>) -> (header: Option<
    String,
>)
    ensures
        crate::text::text_of(header) == ({
            let token = if github_token is Some {
                github_token
            } else {
                gh_token
            };
            match token {
                Some(token) => if token@.len() == 0 {
                    None
                } else {
                    Some("Bearer "@ + token@)
                },
                None => None,
            }
        }),
{
    let token = match github_token {
        Some(token) => token,
        None => match gh_token {
            Some(token) => token,
            None => {
                return None;
            },
        },
    };
    proof {
        reveal_strlit("");
    }
    assert(token@.len() == 0 ==> token@ =~= ""@);
    if same_text(token.as_str(), "") {
        return None;
    }
    let mut header = "Bearer ".to_owned();
    header.append(token.as_str());
    Some(header)
}

/// What a tag resolves to.
pub open spec fn tag_release(tag: Seq<char>, prefix: Seq<char>) -> Release {
    Release {
        version: bare_request(tag, prefix),
        bare: bare_request(tag, prefix),
        upstream_tag: Some(tag),
        source_sha256: None,
    }
}

/// Resolves to a tag.
fn resolve_tag(tag: String, prefix: &str) -> (progress: Progress)
    ensures
        progress.is_done(tag_release(tag@, prefix@)),
{
    let stripped = strip_all(tag.as_str(), prefix);
    let bare = strip_all(stripped.as_str(), "v");
    Progress::Done(
        Resolved { version: bare.clone(), bare, upstream_tag: Some(tag), source_sha256: None },
    )
}

/// The prefix of a project's tags.
pub open spec fn tag_prefix_of(spec: VersionSpec) -> Seq<char> {
    match spec.tag_prefix {
        Some(prefix) => prefix@,
        None => "v"@,
    }
}

/// `progress` is the first question on a version that is published on GitHub.
pub open spec fn asks_github(
    progress: Progress,
    repo: Seq<char>,
    prefix: Seq<char>,
    wanted: Seq<char>,
    tags: bool,
) -> bool {
    if tags {
        asks_tag(progress, repo, prefix, wanted)
    } else if wanted == "latest"@ {
        progress matches Progress::LatestRelease(query) && query.url@ == api_url(repo)
            + "/releases/latest"@ && query.prefix@ == prefix
    } else {
        progress matches Progress::TaggedRelease(query) && query.url@ == api_url(repo)
            + "/releases/tags/"@ + (prefix + wanted) && query.repo@ == repo && query.prefix@
            == prefix && query.wanted@ == prefix + wanted
    }
}

/// `progress` is the first question of a resolution against GitHub.
pub open spec fn begins_github(progress: Progress, spec: VersionSpec, request: Seq<char>) -> bool {
    match spec.repo {
        None => progress matches Progress::Failed(
            ResolveError::Unset { resolver: Resolver::Github, setting: Setting::Repo },
        ),
        Some(repo) => asks_github(
            progress,
            repo@,
            tag_prefix_of(spec),
            bare_request(request, tag_prefix_of(spec)),
            spec.tags,
        ),
    }
}

/// Begins a resolution against GitHub.
pub fn github(spec: &VersionSpec, request: &str) -> (progress: Progress)
    ensures
        begins_github(progress, *spec, request@),
{
    let repo = match &spec.repo {
        None => {
            return Progress::Failed(
                ResolveError::Unset { resolver: Resolver::Github, setting: Setting::Repo },
            );
        },
        Some(repo) => repo.clone(),
    };
    let prefix = match &spec.tag_prefix {
        Some(prefix) => prefix.clone(),
        None => "v".to_owned(),
    };
    let stripped = strip_all(request, prefix.as_str());
    let request = strip_all(stripped.as_str(), "v");
    if spec.tags {
        return github_tag(repo, prefix, request.as_str());
    }
    let mut url = "https://api.github.com/repos/".to_owned();
    url.append(repo.as_str());
    if same_text(request.as_str(), "latest") {
        url.append("/releases/latest");
        return Progress::LatestRelease(LatestQuery { url, prefix });
    }
    let mut wanted = prefix.clone();
    wanted.append(request.as_str());
    url.append("/releases/tags/");
    url.append(wanted.as_str());
    Progress::TaggedRelease(TaggedQuery { url, repo, prefix, wanted })
}

impl LatestQuery {
    /// The latest release is `release`.
    pub fn answer(self, release: GithubRelease) -> (progress: Progress)
        ensures
            progress.is_done(tag_release(release.tag_name@, self.prefix@)),
    {
        resolve_tag(release.tag_name, self.prefix.as_str())
    }

    /// The release could not be fetched.
    pub fn unreachable(self, cause: String) -> (error: ResolveError)
        ensures
            error matches ResolveError::Fetch { url, cause: stated } && url@ == self.url@ && stated@
                == cause@,
    {
        ResolveError::Fetch { url: self.url, cause }
    }

    /// What was fetched is no release.
    pub fn unreadable(self, cause: String) -> (error: ResolveError)
        ensures
            error matches ResolveError::Body { cause: stated } && stated@ == cause@,
    {
        ResolveError::Body { cause }
    }
}

impl TaggedQuery {
    /// The release of the tag is `release`. A draft is refused.
    pub fn answer(self, release: GithubRelease) -> (progress: Progress)
        ensures
            if release.draft {
                progress matches Progress::Failed(ResolveError::Draft { wanted, repo }) && wanted@
                    == self.wanted@ && repo@ == self.repo@
            } else {
                progress.is_done(tag_release(release.tag_name@, self.prefix@))
            },
    {
        if release.draft {
            return Progress::Failed(
                ResolveError::Draft { wanted: self.wanted, repo: self.repo },
            );
        }
        resolve_tag(release.tag_name, self.prefix.as_str())
    }

    /// What there is to say of the release, where it is resolved to.
    pub fn remark(&self, release: &GithubRelease) -> (note: Option<String>)
        ensures
            crate::text::text_of(note) == if !release.draft && release.prerelease {
                Some("note: "@ + self.wanted@ + " is marked as a prerelease upstream"@)
            } else {
                None
            },
    {
        if release.draft || !release.prerelease {
            return None;
        }
        let mut note = "note: ".to_owned();
        note.append(self.wanted.as_str());
        note.append(" is marked as a prerelease upstream");
        Some(note)
    }

    /// There is no such release, as far as could be found out.
    pub fn unreachable(self, cause: String) -> (error: ResolveError)
        ensures
            error matches ResolveError::NotARelease { wanted, repo, cause: stated } && wanted@
                == self.wanted@ && repo@ == self.repo@ && stated@ == cause@,
    {
        ResolveError::NotARelease { wanted: self.wanted, repo: self.repo, cause }
    }

    /// What was fetched is no release.
    pub fn unreadable(self, cause: String) -> (error: ResolveError)
        ensures
            error matches ResolveError::Body { cause: stated } && stated@ == cause@,
    {
        ResolveError::Body { cause }
    }
}

// -- GitHub tags -------------------------------------------------------------

/// How many pages of tags are asked for at most.
pub const MAX_PAGES: u64 = 3;

/// The address of a page of tags.
pub open spec fn page_url(repo: Seq<char>, page: u64) -> Seq<char> {
    api_url(repo) + "/tags?per_page=100&page="@ + crate::number::decimal(page as nat)
}

/// `progress` asks for a page of tags.
pub open spec fn asks_page(
    progress: Progress,
    repo: Seq<char>,
    prefix: Seq<char>,
    page: u64,
    names: Seq<Seq<char>>,
) -> bool {
    progress matches Progress::TagPage(query) && query.url@ == page_url(repo, page) && query.repo@
        == repo && query.prefix@ == prefix && query.page == page && crate::text::texts(query.names@)
        == names
}

/// `progress` is the first question on a version that is a tag.
pub open spec fn asks_tag(
    progress: Progress,
    repo: Seq<char>,
    prefix: Seq<char>,
    wanted: Seq<char>,
) -> bool {
    if wanted == "latest"@ {
        asks_page(progress, repo, prefix, 1, seq![])
    } else {
        progress matches Progress::TagRef(query) && query.url@ == api_url(repo) + "/git/ref/tags/"@
            + (prefix + wanted) && query.repo@ == repo && query.prefix@ == prefix && query.tag@
            == prefix + wanted
    }
}

/// Begins a resolution against a repository's tags rather than its releases.
/// Some projects (MongoDB among them) tag every release but publish no GitHub
/// Release object, so `/releases/latest` returns a 404 for them.
pub fn github_tag(repo: String, prefix: String, request: &str) -> (progress: Progress)
    ensures
        asks_tag(progress, repo@, prefix@, request@),
{
    if same_text(request, "latest") {
        let names: Vec<String> = Vec::new();
        assert(crate::text::texts(names@) =~= seq![]);
        return ask_page(repo, prefix, 1, names);
    }
    let mut tag = prefix.clone();
    tag.append(request);
    let mut url = "https://api.github.com/repos/".to_owned();
    url.append(repo.as_str());
    url.append("/git/ref/tags/");
    url.append(tag.as_str());
    Progress::TagRef(TagRefQuery { url, repo, prefix, tag })
}

/// Asks for a page of tags.
fn ask_page(repo: String, prefix: String, page: u64, names: Vec<String>) -> (progress: Progress)
    ensures
        asks_page(progress, repo@, prefix@, page, crate::text::texts(names@)),
{
    let mut url = "https://api.github.com/repos/".to_owned();
    url.append(repo.as_str());
    url.append("/tags?per_page=100&page=");
    url.append(write_decimal(page).as_str());
    Progress::TagPage(TagPageQuery { url, repo, prefix, page, names })
}

impl TagRefQuery {
    /// The tag exists.
    pub fn answer(self) -> (progress: Progress)
        ensures
            progress.is_done(tag_release(self.tag@, self.prefix@)),
    {
        resolve_tag(self.tag, self.prefix.as_str())
    }

    /// There is no such tag, as far as could be found out.
    pub fn unreachable(self, cause: String) -> (error: ResolveError)
        ensures
            error matches ResolveError::NotATag { tag, repo, cause: stated } && tag@ == self.tag@
                && repo@ == self.repo@ && stated@ == cause@,
    {
        ResolveError::NotATag { tag: self.tag, repo: self.repo, cause }
    }
}

impl TagPageQuery {
    /// The page holds `tags`. The tags endpoint is not ordered by version, so
    /// several pages are pulled and sorted rather than trusting the first result.
    pub fn answer(self, tags: &Vec<Json>) -> (progress: Progress)
        ensures
            ({
                let names = crate::text::texts(self.names@) + crate::select::tagged_versions(
                    tags@,
                    self.prefix@,
                );
                if tags@.len() > 0 && self.page < MAX_PAGES {
                    asks_page(progress, self.repo@, self.prefix@, (self.page + 1) as u64, names)
                } else {
                    match crate::select::newest_of(names) {
                        Some(version) => progress.is_done(
                            tag_release(self.prefix@ + version, self.prefix@),
                        ),
                        None => progress matches Progress::Failed(
                            ResolveError::NoTags { repo, prefix },
                        ) && repo@ == self.repo@ && prefix@ == self.prefix@,
                    }
                }
            }),
    {
        let mut names = self.names;
        collect_tags(&mut names, tags, self.prefix.as_str());
        if tags.len() > 0 && self.page < MAX_PAGES {
            return ask_page(self.repo, self.prefix, self.page + 1, names);
        }
        match newest(&names) {
            Some(version) => {
                let mut tag = self.prefix.clone();
                tag.append(version.as_str());
                resolve_tag(tag, self.prefix.as_str())
            },
            None => Progress::Failed(
                ResolveError::NoTags { repo: self.repo, prefix: self.prefix },
            ),
        }
    }

    /// The page could not be fetched.
    pub fn unreachable(self, cause: String) -> (error: ResolveError)
        ensures
            error matches ResolveError::Fetch { url, cause: stated } && url@ == self.url@ && stated@
                == cause@,
    {
        ResolveError::Fetch { url: self.url, cause }
    }

    /// What was fetched is no list of tags.
    pub fn unreadable(self, cause: String) -> (error: ResolveError)
        ensures
            error matches ResolveError::Body { cause: stated } && stated@ == cause@,
    {
        ResolveError::Body { cause }
    }
}

// -- php.net release index ---------------------------------------------------

/// `progress` is the first question of a resolution against the PHP release index.
pub open spec fn begins_php(progress: Progress, spec: VersionSpec, request: Seq<char>) -> bool {
    match spec.listing {
        None => progress matches Progress::Failed(
            ResolveError::Unset { resolver: Resolver::Php, setting: Setting::Listing },
        ),
        Some(url) => progress matches Progress::PhpIndex(query) && query.url@ == url@
            && query.request@ == request,
    }
}

/// Begins a resolution against the PHP release index.
pub fn php(spec: &VersionSpec, request: &str) -> (progress: Progress)
    ensures
        begins_php(progress, *spec, request@),
{
    match &spec.listing {
        None => Progress::Failed(
            ResolveError::Unset { resolver: Resolver::Php, setting: Setting::Listing },
        ),
        Some(url) => Progress::PhpIndex(PhpQuery { url: url.clone(), request: request.to_owned() }),
    }
}

impl PhpQuery {
    /// The release index is `index`: keyed by version, each release lists its
    /// source archives with digests.
    pub fn answer(self, index: &Vec<(String, Json)>) -> (progress: Progress)
        ensures
            match crate::select::selected_php(index@, self.request@) {
                Ok((version, digest)) => progress.is_done(plain_release(version, digest)),
                Err(refusal) => progress matches Progress::Failed(
                    ResolveError::Select { url, reason },
                ) && url@ == self.url@ && reason@ == refusal,
            },
    {
        match select_php(index, self.request.as_str()) {
            Ok((version, source_sha256)) => Progress::Done(
                Resolved { bare: version.clone(), version, upstream_tag: None, source_sha256 },
            ),
            Err(reason) => Progress::Failed(ResolveError::Select { url: self.url, reason }),
        }
    }

    /// The release index could not be fetched.
    pub fn unreachable(self, cause: String) -> (error: ResolveError)
        ensures
            error matches ResolveError::Fetch { url, cause: stated } && url@ == self.url@ && stated@
                == cause@,
    {
        ResolveError::Fetch { url: self.url, cause }
    }

    /// What was fetched is no release index.
    pub fn unreadable(self, cause: String) -> (error: ResolveError)
        ensures
            error matches ResolveError::Parse { url, cause: stated } && url@ == self.url@ && stated@
                == cause@,
    {
        ResolveError::Parse { url: self.url, cause }
    }
}

// -- laws --------------------------------------------------------------------

/// The questions follow on each other, each after the one before it was answered
/// in the negative.
pub open spec fn follow(questions: Seq<ProbeQuery>) -> bool {
    forall|k: int|
        0 <= k < questions.len() - 1 ==> asks_next(
            Progress::Probe(#[trigger] questions[k + 1]),
            crate::text::texts(questions[k].remaining@),
            questions[k].probe@,
            questions[k].request@,
        )
}

/// Source archives are asked for in the order of the candidates, each at its own
/// address, so the newest version that has an archive is the one resolved to.
pub proof fn law_candidates_are_asked_for_in_order(
    candidates: Seq<Seq<char>>,
    probe: Seq<char>,
    request: Seq<char>,
    questions: Seq<ProbeQuery>,
    k: int,
)
    requires
        0 <= k < questions.len(),
        asks_next(Progress::Probe(questions[0]), candidates, probe, request),
        follow(questions),
    ensures
        k < candidates.len(),
        questions[k].candidate@ == candidates[k],
        archive_url(probe, candidates[k]) == Ok::<Seq<char>, crate::template::Flaw>(
            questions[k].url@,
        ),
        crate::text::texts(questions[k].remaining@) == candidates.skip(k + 1),
        questions[k].probe@ == probe,
        questions[k].request@ == request,
    decreases k,
{
    if k > 0 {
        law_candidates_are_asked_for_in_order(candidates, probe, request, questions, k - 1);
        assert(asks_next(
            Progress::Probe(questions[(k - 1) + 1]),
            crate::text::texts(questions[k - 1].remaining@),
            questions[k - 1].probe@,
            questions[k - 1].request@,
        ));
        assert(candidates.skip(k).drop_first() =~= candidates.skip(k + 1));
    } else {
        assert(candidates.drop_first() =~= candidates.skip(1));
    }
}

/// Only versions that the listing publishes and that answer the request are asked
/// for, so an unofficial version fails before anything is downloaded.
pub proof fn law_only_published_versions_are_asked_for(
    published: Seq<Seq<char>>,
    request: Seq<char>,
    count: int,
    at: int,
)
    requires
        0 <= at < count <= crate::version::shortlist_of(published, request).len(),
    ensures
        ({
            let candidate = crate::version::shortlist_of(published, request).take(count)[at];
            published.contains(candidate) && (request == "latest"@ || crate::version::answers(
                candidate,
                request,
            ))
        }),
{
    let short = crate::version::shortlist_of(published, request);
    assert(short.take(count)[at] == short[at]);
    if request == "latest"@ {
        assert(short == published);
        assert(published.contains(short[at]));
    } else {
        let pred = |candidate: Seq<char>| crate::version::answers(candidate, request);
        assert(short == published.filter(pred));
        published.lemma_filter_pred(pred, at);
        assert(published.filter(pred).contains(short[at]));
        published.lemma_filter_contains_rev(pred, short[at]);
    }
}

/// A prefix that does not begin like a version comes off a version cleanly.
proof fn lemma_bare_version(prefix: Seq<char>, version: Seq<char>)
    requires
        crate::version::is_plain(version),
        prefix.len() > 0 ==> !crate::number::is_digit(prefix[0]),
    ensures
        crate::text::without_prefixes(version, prefix) == version,
        crate::text::without_prefixes(prefix + version, prefix) == version,
{
    crate::version::lemma_plain_begins_with_digit(version);
    assert((prefix + version).skip(prefix.len() as int) =~= version);
    assert(prefix.is_prefix_of(prefix + version));
}

/// The version of a tag is what follows the prefix, as long as the prefix does not
/// itself begin like a version.
pub proof fn law_tag_version_follows_prefix(prefix: Seq<char>, version: Seq<char>)
    requires
        crate::version::is_plain(version),
        prefix.len() > 0 ==> !crate::number::is_digit(prefix[0]),
    ensures
        tag_release(prefix + version, prefix).bare == version,
        tag_release(prefix + version, prefix).version == version,
{
    law_request_may_spell_the_prefix(prefix, version);
}

/// A version may be asked for with its prefix, without it, or with a leading `v`.
pub proof fn law_request_may_spell_the_prefix(prefix: Seq<char>, version: Seq<char>)
    requires
        crate::version::is_plain(version),
        prefix.len() > 0 ==> !crate::number::is_digit(prefix[0]),
    ensures
        bare_request(prefix + version, prefix) == version,
        bare_request(version, prefix) == version,
        prefix.len() > 0 && prefix[0] != 'v' ==> bare_request("v"@ + version, prefix) == version,
{
    reveal_strlit("v");
    lemma_bare_version(prefix, version);
    lemma_bare_version("v"@, version);
    assert(("v"@ + version)[0] == 'v');
}

/// A resolver that needs a setting fails without it, and otherwise begins with the
/// question that the setting leads to, with the request as it was made.
pub proof fn law_resolvers_ask_what_the_recipe_sets(
    progress: Progress,
    spec: VersionSpec,
    request: Seq<char>,
)
    ensures
        begins_nodejs(progress, spec, request) ==> match spec.index {
            Some(url) => progress matches Progress::NodeIndex(query) && query.url@ == url@
                && query.request@ == request,
            None => progress matches Progress::Failed(ResolveError::Unset { resolver, setting })
                && resolver == Resolver::Nodejs && setting == Setting::Index,
        },
        begins_php(progress, spec, request) ==> match spec.listing {
            Some(url) => progress matches Progress::PhpIndex(query) && query.url@ == url@
                && query.request@ == request,
            None => progress matches Progress::Failed(ResolveError::Unset { resolver, setting })
                && resolver == Resolver::Php && setting == Setting::Listing,
        },
        begins_directory(progress, spec, request) ==> {
            &&& spec.listing is None ==> (progress matches Progress::Failed(
                ResolveError::Unset { resolver, setting },
            ) && resolver == Resolver::Directory && setting == Setting::Listing)
            &&& spec.listing is Some && spec.probe is None ==> (progress matches Progress::Failed(
                ResolveError::Unset { resolver, setting },
            ) && resolver == Resolver::Directory && setting == Setting::Probe)
            &&& spec.listing is Some && spec.probe is Some ==> (progress matches Progress::Listing(
                query,
            ) && query.url@ == spec.listing->Some_0@ && query.probe@ == spec.probe->Some_0@
                && query.request@ == request && (spec.dir_prefix matches Some(prefix)
                ==> query.prefix@ == prefix@) && (spec.dir_prefix is None ==> query.prefix@.len()
                == 0))
        },
        begins_github(progress, spec, request) && spec.repo is None ==> (
        progress matches Progress::Failed(ResolveError::Unset { resolver, setting }) && resolver
            == Resolver::Github && setting == Setting::Repo),
{
    reveal_strlit("");
}

/// A GitHub version is asked for by its tag, which is the prefix and the version,
/// whichever way the request spells it: among the releases, or among the tags where
/// the recipe says so. The prefix is `v` unless the recipe sets one.
pub proof fn law_github_versions_are_asked_for_by_tag(
    progress: Progress,
    spec: VersionSpec,
    repo: String,
    version: Seq<char>,
    prefix: Seq<char>,
    request: Seq<char>,
)
    requires
        spec.repo == Some(repo),
        spec.tag_prefix matches Some(set) ==> prefix == set@,
        spec.tag_prefix is None ==> prefix == seq!['v'],
        crate::version::is_plain(version),
        prefix.len() > 0 ==> !crate::number::is_digit(prefix[0]),
        request == version || request == prefix + version,
        begins_github(progress, spec, request),
    ensures
        ({
            let api = "https://api.github.com/repos/"@ + repo@;
            &&& !spec.tags ==> (progress matches Progress::TaggedRelease(query) && query.url@ == api
                + "/releases/tags/"@ + (prefix + version) && query.wanted@ == prefix + version
                && query.repo@ == repo@ && query.prefix@ == prefix)
            &&& spec.tags ==> (progress matches Progress::TagRef(query) && query.url@ == api
                + "/git/ref/tags/"@ + (prefix + version) && query.tag@ == prefix + version
                && query.repo@ == repo@ && query.prefix@ == prefix)
        }),
{
    reveal_strlit("v");
    reveal_strlit("latest");
    assert("v"@ =~= seq!['v']);
    assert(tag_prefix_of(spec) == prefix);
    law_request_may_spell_the_prefix(prefix, version);
    crate::version::lemma_plain_begins_with_digit(version);
    assert("latest"@[0] == 'l');
}

/// The latest GitHub version is the latest release, or the newest of the tags where
/// the recipe says so, which are read from the first page on.
pub proof fn law_github_latest_is_asked_for(
    progress: Progress,
    spec: VersionSpec,
    repo: String,
    prefix: Seq<char>,
)
    requires
        spec.repo == Some(repo),
        spec.tag_prefix matches Some(set) ==> prefix == set@,
        spec.tag_prefix is None ==> prefix == seq!['v'],
        prefix.len() > 0 ==> prefix[0] != 'l',
        begins_github(progress, spec, "latest"@),
    ensures
        ({
            let api = "https://api.github.com/repos/"@ + repo@;
            &&& !spec.tags ==> (progress matches Progress::LatestRelease(query) && query.url@ == api
                + "/releases/latest"@ && query.prefix@ == prefix)
            &&& spec.tags ==> (progress matches Progress::TagPage(query) && query.url@ == api
                + "/tags?per_page=100&page="@ + seq!['1'] && query.repo@ == repo@ && query.prefix@
                == prefix && query.page == 1 && query.names@.len() == 0)
        }),
{
    reveal_strlit("v");
    reveal_strlit("latest");
    assert("v"@ =~= seq!['v']);
    assert("latest"@[0] == 'l' && "v"@[0] == 'v');
    assert(tag_prefix_of(spec) == prefix);
    assert(prefix.len() > 0 ==> !prefix.is_prefix_of("latest"@)) by {
        if prefix.len() > 0 && prefix.is_prefix_of("latest"@) {
            assert(prefix[0] == "latest"@[0]);
        }
    }
    assert(!"v"@.is_prefix_of("latest"@)) by {
        if "v"@.is_prefix_of("latest"@) {
            assert("v"@[0] == "latest"@[0]);
        }
    }
    assert(bare_request("latest"@, prefix) == "latest"@);
    crate::number::law_decimal_appends_the_last_digit(0, 1);
    assert(crate::number::decimal(1) =~= seq!['1']);
    if spec.tags {
        assert(progress matches Progress::TagPage(query) && crate::text::texts(query.names@).len()
            == 0);
    }
}

/// A page of tags is asked for by its number.
pub proof fn law_pages_are_asked_for_by_number(
    query: TagPageQuery,
    repo: Seq<char>,
    prefix: Seq<char>,
    page: u64,
    names: Seq<Seq<char>>,
)
    requires
        asks_page(Progress::TagPage(query), repo, prefix, page, names),
    ensures
        query.url@ == "https://api.github.com/repos/"@ + repo + "/tags?per_page=100&page="@
            + crate::number::decimal(page as nat),
        query.page == page,
        query.repo@ == repo,
        query.prefix@ == prefix,
        crate::text::texts(query.names@) == names,
{
}

/// As long as candidates are left, the next one is asked for; only where none is left
/// is there no archive.
pub proof fn law_probing_ends_with_the_candidates(
    progress: Progress,
    candidates: Seq<Seq<char>>,
    probe: Seq<char>,
    request: Seq<char>,
)
    requires
        asks_next(progress, candidates, probe, request),
    ensures
        candidates.len() == 0 <==> (progress matches Progress::Failed(
            ResolveError::NoArchive { request: stated },
        )),
        candidates.len() > 0 && archive_url(probe, candidates[0]) is Ok ==> progress is Probe,
        progress matches Progress::Probe(query) ==> query.candidate@ == candidates[0]
            && crate::text::texts(query.remaining@) == candidates.skip(1) && archive_url(
            probe,
            candidates[0],
        ) == Ok::<Seq<char>, crate::template::Flaw>(query.url@),
{
    if candidates.len() > 0 {
        assert(candidates.drop_first() =~= candidates.skip(1));
    }
}

/// The address of an archive is the probe with the candidate in place of every
/// `{{candidate}}`.
pub proof fn law_archives_are_probed_by_candidate(
    before: Seq<char>,
    rest: Seq<char>,
    candidate: Seq<char>,
)
    requires
        forall|i: int| 0 <= i < before.len() ==> #[trigger] before[i] != '{',
    ensures
        archive_url(before, candidate) == Ok::<Seq<char>, crate::template::Flaw>(before),
        archive_url(before + "{{candidate}}"@ + rest, candidate) == (match archive_url(
            rest,
            candidate,
        ) {
            Ok(tail) => Ok::<Seq<char>, crate::template::Flaw>(before + candidate + tail),
            Err(flaw) => Err(flaw),
        }),
{
    let vars = map!["candidate"@ => candidate];
    let name = "candidate"@;
    let empty = Seq::<char>::empty();
    reveal_strlit("candidate");
    reveal_strlit("{{candidate}}");
    assert forall|i: int| !crate::text::occurs_at(before, seq!['{', '{'], i) by {
        if crate::text::occurs_at(before, seq!['{', '{'], i) {
            assert(before.subrange(i, i + 2)[0] == '{');
            assert(before[i] == '{');
        }
    }
    assert(crate::template::opening() == seq!['{', '{']);
    crate::template::law_plain_text_is_left_alone(vars, before);
    assert forall|i: int| !crate::text::occurs_at(name, seq!['}', '}'], i) by {
        if crate::text::occurs_at(name, seq!['}', '}'], i) {
            assert(name.subrange(i, i + 2)[0] == '}');
            assert(name[i] == '}');
        }
    }
    assert(name.last() == 'e' && name[0] == 'c');
    crate::template::law_placeholder_is_replaced(vars, before, name, rest);
    assert("{{candidate}}"@ =~= seq!['{', '{'] + name + seq!['}', '}']);
    assert(before + "{{candidate}}"@ + rest =~= before + crate::template::opening() + name
        + crate::template::closing() + rest);
    crate::text::law_ascii_white_space('c');
    crate::text::law_ascii_white_space('e');
    crate::text::law_trimming_leaves_the_middle(empty, name, empty);
    assert(empty + name + empty =~= name);
}

/// Twenty candidates are probed at most, and all of them where there are no more; and
/// three pages of tags are read at most.
pub proof fn law_questions_are_bounded(short: Seq<Seq<char>>)
    ensures
        short.take(
            if short.len() < MAX_PROBES {
                short.len() as int
            } else {
                MAX_PROBES as int
            },
        ) == if short.len() <= 20 {
            short
        } else {
            short.take(20)
        },
        MAX_PAGES == 3,
{
    if short.len() <= 20 {
        assert(short.take(short.len() as int) =~= short);
    }
}

/// A Node.js version is known by its name, and bare without the letter `v`; it has
/// neither a tag nor a digest.
pub proof fn law_node_releases_lose_the_letter(number: Seq<char>)
    requires
        number.len() > 0 ==> number[0] != 'v',
    ensures
        node_release(seq!['v'] + number).version == seq!['v'] + number,
        node_release(seq!['v'] + number).bare == number,
        node_release(seq!['v'] + number).upstream_tag is None,
        node_release(seq!['v'] + number).source_sha256 is None,
{
    reveal_strlit("v");
    assert("v"@ =~= seq!['v']);
    crate::text::law_every_prefix_is_taken_away(number, "v"@);
    assert(!"v"@.is_prefix_of(number)) by {
        if "v"@.is_prefix_of(number) {
            assert(number[0] == "v"@[0]);
        }
    }
}

/// A version without a tag is known by itself, with the digest that was published for
/// it; one with a tag keeps the tag.
pub proof fn law_releases_keep_what_was_published(
    version: Seq<char>,
    digest: Option<Seq<char>>,
    tag: Seq<char>,
    prefix: Seq<char>,
)
    ensures
        plain_release(version, digest).version == version,
        plain_release(version, digest).bare == version,
        plain_release(version, digest).upstream_tag is None,
        plain_release(version, digest).source_sha256 == digest,
        tag_release(tag, prefix).upstream_tag == Some(tag),
        tag_release(tag, prefix).source_sha256 is None,
{
}

/// The model of a resolved version says all of it.
pub proof fn law_model_says_what_was_resolved(resolved: Resolved)
    ensures
        resolved@.version == resolved.version@,
        resolved@.bare == resolved.bare@,
        resolved@.upstream_tag == crate::text::text_of(resolved.upstream_tag),
        resolved@.source_sha256 == crate::text::text_of(resolved.source_sha256),
        forall|release: Release|
            #![trigger Progress::Done(resolved).is_done(release)]
            Progress::Done(resolved).is_done(release) <==> resolved@ == release,
{
}

/// A request, and a tag, mean what follows the prefix, and what follows the letter
/// `v`, whatever that is.
pub proof fn law_prefixes_are_taken_off(prefix: Seq<char>, rest: Seq<char>)
    requires
        prefix.len() > 0,
        !prefix.is_prefix_of(rest),
        rest.len() > 0 ==> rest[0] != 'v',
    ensures
        bare_request(rest, prefix) == rest,
        bare_request(prefix + rest, prefix) == rest,
        !prefix.is_prefix_of(seq!['v'] + rest) ==> bare_request(seq!['v'] + rest, prefix) == rest,
        tag_release(prefix + rest, prefix).version == rest,
        tag_release(prefix + rest, prefix).bare == rest,
{
    reveal_strlit("v");
    assert("v"@ =~= seq!['v']);
    crate::text::law_every_prefix_is_taken_away(rest, prefix);
    crate::text::law_every_prefix_is_taken_away(rest, "v"@);
    assert(!"v"@.is_prefix_of(rest)) by {
        if "v"@.is_prefix_of(rest) {
            assert(rest[0] == "v"@[0]);
        }
    }
    crate::text::law_every_prefix_is_taken_away(seq!['v'] + rest, prefix);
}

/// What a recipe does not set is named as it is written in the recipe.
pub proof fn law_settings_are_named(resolver: Resolver, setting: Setting)
    ensures
        (ResolveError::Unset { resolver, setting }).words() == "recipe uses the "@ + (
        match resolver {
            Resolver::Nodejs => "nodejs"@,
            Resolver::Directory => "directory"@,
            Resolver::Github => "github"@,
            Resolver::Php => "php"@,
        }) + " resolver but sets no `version."@ + (match setting {
            Setting::Index => "index"@,
            Setting::Listing => "listing"@,
            Setting::Probe => "probe"@,
            Setting::Repo => "repo"@,
        }) + "`"@,
{
}

} // verus!
