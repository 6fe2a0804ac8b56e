//! Whether a source archive is what it claims to be.

use crate::build::error::BuildError;
use crate::recipe::{Checksum, ChecksumKind};
use crate::template::Vars;
use crate::text::{chars_of, next_word, same_text, split_on, string_of, trim_start_matches};
use vstd::prelude::*;
use vstd::string::*;

verus! {

/// What is known of a digest.
#[derive(Debug)]
pub enum Checked {
    /// The digest is accepted; this is what there is to say of it.
    Accepted(String),
    /// A manifest decides.
    Manifest(ManifestQuery),
}

/// Asks for a manifest of digests.
#[derive(Debug)]
pub struct ManifestQuery {
    pub url: String,
    pub filename: String,
    pub digest: String,
}

/// What is said of a digest.
pub open spec fn digest_text(digest: Seq<char>, remark: Seq<char>) -> Seq<char> {
    "sha256 "@ + digest + remark
}

/// What is said of a digest.
fn write_digest(digest: &str, remark: &str) -> (text: String)
    ensures
        text@ == digest_text(digest@, remark@),
{
    let mut text = "sha256 ".to_owned();
    text.append(digest);
    text.append(remark);
    text
}

/// The digest is accepted, with a remark.
pub open spec fn accepts(
    result: Result<Checked, BuildError>,
    digest: Seq<char>,
    remark: Seq<char>,
) -> bool {
    result matches Ok(Checked::Accepted(text)) && text@ == digest_text(digest, remark)
}

/// Holds the digest of a file against what is published of it. A manifest has to be
/// fetched first.
pub fn verify_checksum(
    checksum: Option<&Checksum>,
    vars: &Vars,
    filename: &str,
    digest: &str,
    index_digest: Option<&str>,
) -> (result: Result<Checked, BuildError>)
    ensures
        match checksum {
            None => accepts(result, digest@, " (unverified)"@),
            Some(checksum) => match checksum.kind {
                ChecksumKind::Record => accepts(
                    result,
                    digest@,
                    " (recorded, no published checksum)"@,
                ),
                ChecksumKind::FromIndex => match index_digest {
                    None => result matches Err(BuildError::NoIndexDigest),
                    Some(published) => if published@ == digest@ {
                        accepts(result, digest@, " verified against the release index"@)
                    } else {
                        result matches Err(BuildError::IndexMismatch { expected, got }) && expected@
                            == published@ && got@ == digest@
                    },
                },
                ChecksumKind::Sha256 => match checksum.value {
                    None => result matches Err(BuildError::NoValue),
                    Some(value) => if value@ == digest@ {
                        accepts(result, digest@, " verified"@)
                    } else {
                        result matches Err(BuildError::Mismatch { expected, got }) && expected@
                            == value@ && got@ == digest@
                    },
                },
                ChecksumKind::Sha256Manifest => match checksum.url {
                    None => result matches Err(BuildError::NoManifestUrl),
                    Some(template) => match crate::template::expansion(vars@, template@) {
                        Ok(url) => result matches Ok(Checked::Manifest(query)) && query.url@ == url
                            && query.filename@ == filename@ && query.digest@ == digest@,
                        Err(_) => result matches Err(BuildError::Template { error })
                            && error.arises(vars@, template@),
                    },
                },
            },
        },
{
    let checksum = match checksum {
        Some(checksum) => checksum,
        None => {
            return Ok(Checked::Accepted(write_digest(digest, " (unverified)")));
        },
    };
    match checksum.kind {
        ChecksumKind::Record => Ok(
            Checked::Accepted(write_digest(digest, " (recorded, no published checksum)")),
        ),
        ChecksumKind::FromIndex => match index_digest {
            None => Err(BuildError::NoIndexDigest),
            Some(expected) => {
                if !same_text(expected, digest) {
                    return Err(
                        BuildError::IndexMismatch {
                            expected: expected.to_owned(),
                            got: digest.to_owned(),
                        },
                    );
                }
                Ok(Checked::Accepted(write_digest(digest, " verified against the release index")))
            },
        },
        ChecksumKind::Sha256 => match &checksum.value {
            None => Err(BuildError::NoValue),
            Some(expected) => {
                if !same_text(expected.as_str(), digest) {
                    return Err(
                        BuildError::Mismatch { expected: expected.clone(), got: digest.to_owned() },
                    );
                }
                Ok(Checked::Accepted(write_digest(digest, " verified")))
            },
        },
        ChecksumKind::Sha256Manifest => match &checksum.url {
            None => Err(BuildError::NoManifestUrl),
            Some(template) => match vars.expand(template.as_str()) {
                Err(error) => Err(BuildError::Template { error }),
                Ok(url) => Ok(
                    Checked::Manifest(
                        ManifestQuery {
                            url,
                            filename: filename.to_owned(),
                            digest: digest.to_owned(),
                        },
                    ),
                ),
            },
        },
    }
}

/// The name of a file in a manifest. Manifests spell it as `file`, `*file` (binary
/// mode) or `./file` depending on how they were generated.
pub open spec fn listed_name(word: Seq<char>) -> Seq<char> {
    crate::text::without_prefixes(crate::text::without_prefixes(word, "*"@), "./"@)
}

/// The digest that a line of a manifest gives for a file.
pub open spec fn digest_on(line: Seq<char>, filename: Seq<char>) -> Option<Seq<char>> {
    let words = crate::text::words(line);
    if words.len() >= 2 && listed_name(words[1]) == filename {
        Some(words[0])
    } else {
        None
    }
}

/// The digest that the first of some lines, from `from` on, gives for a file.
pub open spec fn digest_from(lines: Seq<Seq<char>>, filename: Seq<char>, from: int) -> Option<
    Seq<char>,
>
    decreases lines.len() - from,
{
    if from >= lines.len() {
        None
    } else {
        match digest_on(lines[from], filename) {
            Some(digest) => Some(digest),
            None => digest_from(lines, filename, from + 1),
        }
    }
}

/// The digest that a manifest gives for a file: that of the first line that names
/// the file.
pub open spec fn listed_digest(manifest: Seq<char>, filename: Seq<char>) -> Option<Seq<char>> {
    digest_from(crate::text::split(manifest, "\n"@), filename, 0)
}

/// The digest that a line of a manifest gives for a file.
fn read_line(line: &[char], filename: &str) -> (digest: Option<String>)
    ensures
        crate::text::text_of(digest) == digest_on(line@, filename@),
{
    let (hash, rest) = match next_word(line) {
        Some(found) => found,
        None => {
            return None;
        },
    };
    let ghost words = crate::text::words(line@);
    let (word, _) = match next_word(rest) {
        Some(found) => found,
        None => {
            assert(words.len() == 1);
            return None;
        },
    };
    assert(words[0] == hash@ && words[1] == word@);
    let star = chars_of("*");
    let here = chars_of("./");
    let name = string_of(trim_start_matches(trim_start_matches(word, &star), &here));
    if same_text(name.as_str(), filename) {
        Some(string_of(hash))
    } else {
        None
    }
}

/// The digest that a manifest gives for a file.
fn read_manifest(manifest: &str, filename: &str) -> (digest: Option<String>)
    ensures
        crate::text::text_of(digest) == listed_digest(manifest@, filename@),
{
    let chars = chars_of(manifest);
    let newline = chars_of("\n");
    proof {
        reveal_strlit("\n");
    }
    let lines = split_on(&chars, &newline);
    let ghost all = crate::text::split(manifest@, "\n"@);
    let mut i: usize = 0;
    while i < lines.len()
        invariant
            i <= lines@.len(),
            all == crate::text::split(manifest@, "\n"@),
            all == crate::text::pieces(lines@),
            digest_from(all, filename@, 0) == digest_from(all, filename@, i as int),
        ensures
            digest_from(all, filename@, 0) is None,
        decreases lines@.len() - i,
    {
        assert(all[i as int] == lines@[i as int]@);
        match read_line(lines[i], filename) {
            Some(digest) => {
                return Some(digest);
            },
            None => {},
        }
        i += 1;
    }
    None
}

impl ManifestQuery {
    /// The manifest is the text `manifest`.
    pub fn answer(self, manifest: &str) -> (result: Result<String, BuildError>)
        ensures
            match listed_digest(manifest@, self.filename@) {
                None => result matches Err(BuildError::NotListed { filename, url }) && filename@
                    == self.filename@ && url@ == self.url@,
                Some(listed) => if listed == self.digest@ {
                    result matches Ok(text) && text@ == digest_text(
                        self.digest@,
                        " verified against "@,
                    ) + self.url@
                } else {
                    result matches Err(BuildError::ManifestMismatch { url, expected, got }) && url@
                        == self.url@ && expected@ == listed && got@ == self.digest@
                },
            },
    {
        match read_manifest(manifest, self.filename.as_str()) {
            None => Err(BuildError::NotListed { filename: self.filename, url: self.url }),
            Some(expected) => {
                if !same_text(expected.as_str(), self.digest.as_str()) {
                    return Err(
                        BuildError::ManifestMismatch {
                            url: self.url,
                            expected,
                            got: self.digest,
                        },
                    );
                }
                let mut text = write_digest(self.digest.as_str(), " verified against ");
                text.append(self.url.as_str());
                Ok(text)
            },
        }
    }

    /// The manifest could not be fetched.
    pub fn unreachable(self, cause: String) -> (error: BuildError)
        ensures
            error matches BuildError::NoManifest { url, cause: stated } && url@ == self.url@
                && stated@ == cause@,
    {
        BuildError::NoManifest { url: self.url, cause }
    }

    /// The manifest broke off, or is no text.
    pub fn unreadable(self, cause: String) -> (error: BuildError)
        ensures
            error matches BuildError::ManifestBody { cause: stated } && stated@ == cause@,
    {
        BuildError::ManifestBody { cause }
    }
}

// -- laws --------------------------------------------------------------------

/// A text without white space.
pub open spec fn is_word(text: Seq<char>) -> bool {
    text.len() > 0 && forall|i: int|
        0 <= i < text.len() ==> !crate::text::is_space(#[trigger] text[i])
}

/// The words of a digest and a spelling of a name.
proof fn lemma_two_words(digest: Seq<char>, gap: Seq<char>, name: Seq<char>)
    requires
        is_word(digest),
        is_word(name),
        gap == seq![' '] || gap == seq![' ', ' '],
    ensures
        crate::text::words(digest + gap + name) == seq![digest, name],
{
    let empty = Seq::<char>::empty();
    assert(digest + gap + name =~= digest + (gap + name));
    crate::text::lemma_words_front(digest, gap + name);
    crate::text::lemma_words_front(name, empty);
    assert(name + empty =~= name);
    assert(crate::text::words(empty) =~= seq![]);
    crate::text::lemma_words_after_space(' ', name);
    if gap == seq![' ', ' '] {
        crate::text::lemma_words_after_space(' ', seq![' '] + name);
        assert(gap + name =~= seq![' '] + (seq![' '] + name));
    }
    assert(crate::text::words(digest + gap + name) =~= seq![digest, name]);
}

/// A line of a digest and a name gives the digest for the name, whichever way the
/// name is spelled.
pub proof fn law_manifest_spellings(digest: Seq<char>, name: Seq<char>)
    requires
        is_word(digest),
        is_word(name),
        name[0] != '*',
        !seq!['.', '/'].is_prefix_of(name),
    ensures
        digest_on(digest + "  "@ + name, name) == Some(digest),
        digest_on(digest + " *"@ + name, name) == Some(digest),
        digest_on(digest + "  ./"@ + name, name) == Some(digest),
{
    reveal_strlit("  ");
    reveal_strlit(" *");
    reveal_strlit("  ./");
    reveal_strlit("*");
    reveal_strlit("./");
    let starred = "*"@ + name;
    let dotted = "./"@ + name;
    assert("./"@ =~= seq!['.', '/']);
    assert("  "@ =~= seq![' ', ' ']);
    assert(digest + " *"@ + name =~= digest + seq![' '] + starred);
    assert(digest + "  ./"@ + name =~= digest + seq![' ', ' '] + dotted);
    assert(is_word(starred)) by {
        assert forall|i: int| 0 <= i < starred.len() implies !crate::text::is_space(
            #[trigger] starred[i],
        ) by {
            if i > 0 {
                assert(starred[i] == name[i - 1]);
            }
        }
    }
    assert(is_word(dotted)) by {
        assert forall|i: int| 0 <= i < dotted.len() implies !crate::text::is_space(
            #[trigger] dotted[i],
        ) by {
            if i > 1 {
                assert(dotted[i] == name[i - 2]);
            }
        }
    }
    lemma_two_words(digest, seq![' ', ' '], name);
    lemma_two_words(digest, seq![' '], starred);
    lemma_two_words(digest, seq![' ', ' '], dotted);
    assert(starred.skip(1) =~= name);
    assert(dotted.skip(2) =~= name);
    assert("*"@.is_prefix_of(starred));
    assert(!"*"@.is_prefix_of(name)) by {
        if "*"@.is_prefix_of(name) {
            assert(name[0] == "*"@[0]);
        }
    }
    assert(!"*"@.is_prefix_of(dotted)) by {
        if "*"@.is_prefix_of(dotted) {
            assert(dotted[0] == "*"@[0]);
        }
    }
    assert("./"@.is_prefix_of(dotted));
    assert(listed_name(name) == name);
    assert(listed_name(starred) == name);
    assert(listed_name(dotted) == name);
}

/// The file that is written beside an artifact is a manifest of it: reading it back
/// gives the digest that was written.
pub proof fn law_digest_file_reads_back(digest: Seq<char>, name: Seq<char>)
    requires
        is_word(digest),
        is_word(name),
        name[0] != '*',
        !seq!['.', '/'].is_prefix_of(name),
    ensures
        listed_digest(digest + "  "@ + name + "\n"@, name) == Some(digest),
{
    reveal_strlit("\n");
    reveal_strlit("  ");
    law_manifest_spellings(digest, name);
    let line = digest + "  "@ + name;
    let empty = Seq::<char>::empty();
    assert("\n"@ =~= seq!['\n']);
    assert(line + "\n"@ =~= line.push('\n') + empty);
    assert forall|i: int| 0 <= i < line.len() implies #[trigger] line[i] != '\n' by {
        if i < digest.len() {
            assert(line[i] == digest[i]);
        } else if i >= digest.len() + 2 {
            assert(line[i] == name[i - digest.len() - 2]);
        }
    }
    crate::text::lemma_split_concat(line, '\n', empty);
    crate::text::lemma_first_char(line, '\n');
    assert(crate::text::split(line, seq!['\n']) =~= seq![line]);
    assert(crate::text::split(line + "\n"@, "\n"@)[0] == line);
}

/// Wherever in a manifest the first line that names a file stands, the digest of that
/// line is the one given for the file.
pub proof fn law_first_naming_line_counts(lines: Seq<Seq<char>>, filename: Seq<char>, at: int)
    requires
        0 <= at < lines.len(),
        forall|i: int, j: int|
            0 <= i < lines.len() && 0 <= j < lines[i].len() ==> #[trigger] lines[i][j] != '\n',
        digest_on(lines[at], filename) is Some,
        forall|i: int| 0 <= i < at ==> digest_on(#[trigger] lines[i], filename) is None,
    ensures
        listed_digest(crate::text::join(lines, seq!['\n']), filename) == digest_on(
            lines[at],
            filename,
        ),
{
    reveal_strlit("\n");
    assert("\n"@ =~= seq!['\n']);
    crate::text::lemma_split_join(lines, '\n');
    lemma_digest_from(lines, filename, 0, at);
}

proof fn lemma_digest_from(lines: Seq<Seq<char>>, filename: Seq<char>, from: int, at: int)
    requires
        0 <= from <= at < lines.len(),
        digest_on(lines[at], filename) is Some,
        forall|i: int| from <= i < at ==> digest_on(#[trigger] lines[i], filename) is None,
    ensures
        digest_from(lines, filename, from) == digest_on(lines[at], filename),
    decreases at - from,
{
    if from < at {
        assert(digest_on(lines[from], filename) is None);
        lemma_digest_from(lines, filename, from + 1, at);
    }
}

/// Nothing is given for a file only where no line of the manifest names it.
pub proof fn law_unnamed_files_are_not_listed(lines: Seq<Seq<char>>, filename: Seq<char>)
    requires
        lines.len() > 0,
        forall|i: int, j: int|
            0 <= i < lines.len() && 0 <= j < lines[i].len() ==> #[trigger] lines[i][j] != '\n',
    ensures
        listed_digest(crate::text::join(lines, seq!['\n']), filename) is None <==> forall|i: int|
            0 <= i < lines.len() ==> digest_on(#[trigger] lines[i], filename) is None,
{
    reveal_strlit("\n");
    assert("\n"@ =~= seq!['\n']);
    crate::text::lemma_split_join(lines, '\n');
    lemma_no_digest(lines, filename, 0);
}

proof fn lemma_no_digest(lines: Seq<Seq<char>>, filename: Seq<char>, from: int)
    requires
        0 <= from,
    ensures
        digest_from(lines, filename, from) is None <==> forall|i: int|
            from <= i < lines.len() ==> digest_on(#[trigger] lines[i], filename) is None,
    decreases lines.len() - from,
{
    if from < lines.len() {
        lemma_no_digest(lines, filename, from + 1);
        if digest_from(lines, filename, from) is None {
            assert forall|i: int| from <= i < lines.len() implies digest_on(
                #[trigger] lines[i],
                filename,
            ) is None by {
                if i > from {
                    assert(digest_from(lines, filename, from + 1) is None);
                }
            }
        } else if digest_on(lines[from], filename) is None {
            let i = choose|i: int|
                from + 1 <= i < lines.len() && digest_on(#[trigger] lines[i], filename) is Some;
            assert(digest_on(lines[i], filename) is Some);
        }
    }
}

/// A line names the file that its second word spells, plainly or after `*` or `./`,
/// and gives its first word as the digest, whatever follows.
pub proof fn law_second_word_names_the_file(line: Seq<char>, name: Seq<char>)
    requires
        crate::text::words(line).len() >= 2,
        name.len() > 0 && name[0] != '*',
        !seq!['.', '/'].is_prefix_of(name),
        crate::text::words(line)[1] == name || crate::text::words(line)[1] == seq!['*'] + name
            || crate::text::words(line)[1] == seq!['.', '/'] + name,
    ensures
        digest_on(line, name) == Some(crate::text::words(line)[0]),
{
    reveal_strlit("*");
    reveal_strlit("./");
    assert("*"@ =~= seq!['*']);
    assert("./"@ =~= seq!['.', '/']);
    let starred = seq!['*'] + name;
    let dotted = seq!['.', '/'] + name;
    assert(starred.skip(1) =~= name);
    assert(dotted.skip(2) =~= name);
    assert(seq!['*'].is_prefix_of(starred));
    assert(seq!['.', '/'].is_prefix_of(dotted));
    assert(!seq!['*'].is_prefix_of(name)) by {
        if seq!['*'].is_prefix_of(name) {
            assert(name[0] == seq!['*'][0]);
        }
    }
    assert(!seq!['*'].is_prefix_of(dotted)) by {
        if seq!['*'].is_prefix_of(dotted) {
            assert(dotted[0] == seq!['*'][0]);
        }
    }
    assert(crate::text::without_prefixes(name, "*"@) == name);
    assert(crate::text::without_prefixes(starred, "*"@) == name);
    assert(crate::text::without_prefixes(dotted, "*"@) == dotted);
    assert(crate::text::without_prefixes(name, "./"@) == name);
    assert(crate::text::without_prefixes(dotted, "./"@) == name);
}

/// A line that gives a digest for a file has the digest as its first word, and its
/// second word ends with the name of the file, with nothing before but `*`, `.` and
/// `/`.
pub proof fn law_only_naming_lines_count(line: Seq<char>, name: Seq<char>, digest: Seq<char>)
    requires
        digest_on(line, name) == Some(digest),
    ensures
        crate::text::words(line).len() >= 2,
        crate::text::words(line)[0] == digest,
        name.is_suffix_of(crate::text::words(line)[1]),
        forall|i: int|
            0 <= i < crate::text::words(line)[1].len() - name.len() ==> ({
                let c = #[trigger] crate::text::words(line)[1][i];
                c == '*' || c == '.' || c == '/'
            }),
{
    reveal_strlit("*");
    reveal_strlit("./");
    let word = crate::text::words(line)[1];
    let bare = crate::text::without_prefixes(word, "*"@);
    lemma_stripped(word, "*"@);
    lemma_stripped(bare, "./"@);
    let first = word.len() - bare.len();
    assert(word.skip(word.len() - name.len()) =~= bare.skip(bare.len() - name.len()));
    assert(name =~= word.skip(word.len() - name.len()));
    assert forall|i: int| 0 <= i < word.len() - name.len() implies ({
        let c = #[trigger] word[i];
        c == '*' || c == '.' || c == '/'
    }) by {
        if i >= first {
            assert(word[i] == bare[i - first]);
        }
    }
}

proof fn lemma_stripped(text: Seq<char>, prefix: Seq<char>)
    ensures
        ({
            let rest = crate::text::without_prefixes(text, prefix);
            &&& rest.len() <= text.len()
            &&& rest == text.skip(text.len() - rest.len())
            &&& forall|i: int|
                0 <= i < text.len() - rest.len() ==> prefix.contains(#[trigger] text[i])
        }),
    decreases text.len(),
{
    if prefix.len() > 0 && prefix.is_prefix_of(text) {
        let tail = text.skip(prefix.len() as int);
        lemma_stripped(tail, prefix);
        let rest = crate::text::without_prefixes(tail, prefix);
        assert(rest =~= text.skip(text.len() - rest.len()));
        assert forall|i: int| 0 <= i < text.len() - rest.len() implies prefix.contains(
            #[trigger] text[i],
        ) by {
            if i < prefix.len() {
                assert(prefix[i] == text[i]);
            } else {
                assert(text[i] == tail[i - prefix.len()]);
            }
        }
    } else {
        assert(text.skip(0) =~= text);
    }
}

/// What is said of an accepted digest is the digest and then the remark.
pub proof fn law_accepted_digests_are_told(
    result: Result<Checked, BuildError>,
    digest: Seq<char>,
    remark: Seq<char>,
)
    requires
        accepts(result, digest, remark),
    ensures
        result matches Ok(Checked::Accepted(text)) && text@ == "sha256 "@ + digest + remark,
{
}

} // verus!
