//! Versions and file names: which dump a build is made from, and what the
//! files of the build are called.

use crate::blank::{is_white_space, white_space};
use crate::text::{chars_of, range_eq};
use vstd::prelude::*;

verus! {

/// The level at which the finished table is compressed.
pub const COMPRESSION_LEVEL: i32 = 11;

/// What the first group of a regular expression holds in the leftmost match
/// of the expression in a text. There is none where `pattern` is no regular
/// expression, where it matches nowhere in `haystack`, or where its first
/// group takes no part in the match.
pub uninterp spec fn first_group(pattern: Seq<char>, haystack: Seq<char>) -> Option<Seq<char>>;

/// The names of dump files, as a regular expression. The first group is the
/// day of the dump, eight digits.
pub open spec fn dump_name_pattern() -> Seq<char> {
    "wikidata-(\\d{8})-all\\.json\\.bz2"@
}

/// `Regex::new`, `Regex::captures`, `Captures::get` with index 1 and
/// `Match::as_str` of the crate `regex`, one after the other.
///
/// Trusted: the result is a function of the pattern and the haystack alone,
/// named `first_group`. Nothing is claimed of what it holds.
#[verifier::external_body]
fn capture_first_group(pattern: &str, haystack: &str) -> (group: Option<String>)
    ensures
        match group {
            Some(text) => first_group(pattern@, haystack@) == Some(text@),
            None => first_group(pattern@, haystack@) is None,
        },
{
    let re = regex::Regex::new(pattern).ok()?;
    re.captures(haystack)?.get(1).map(|m| m.as_str().to_owned())
}

/// The version of the dump in the file `file_name`: the day that the name
/// carries between `wikidata-` and `-all.json.bz2`. A name of another form
/// has no version.
pub fn dump_version(file_name: &str) -> (version: Option<String>)
    ensures
        match version {
            Some(day) => first_group(dump_name_pattern(), file_name@) == Some(day@),
            None => first_group(dump_name_pattern(), file_name@) is None,
        },
{
    capture_first_group("wikidata-(\\d{8})-all\\.json\\.bz2", file_name)
}

/// `text` without the white space at its two ends.
pub open spec fn trimmed(text: Seq<char>) -> Seq<char>
    decreases text.len(),
{
    if text.len() > 0 && is_white_space(text.first()) {
        trimmed(text.drop_first())
    } else if text.len() > 0 && is_white_space(text.last()) {
        trimmed(text.drop_last())
    } else {
        text
    }
}

/// The trimmed text is what lies between the white space at the front and
/// the white space at the back.
proof fn lemma_trimmed(text: Seq<char>, from: int, to: int)
    requires
        0 <= from <= to <= text.len(),
        forall|i: int| 0 <= i < from ==> is_white_space(text[i]),
        forall|i: int| to <= i < text.len() ==> is_white_space(text[i]),
        from < to ==> !is_white_space(text[from]) && !is_white_space(text[to - 1]),
    ensures
        trimmed(text) == text.subrange(from, to),
    decreases text.len(),
{
    if text.len() > 0 && is_white_space(text.first()) {
        let rest = text.drop_first();
        if from == to {
            assert forall|i: int| 0 <= i < rest.len() implies is_white_space(rest[i]) by {
                assert(rest[i] == text[i + 1]);
            }
            lemma_trimmed(rest, 0, 0);
            assert(rest.subrange(0, 0) == text.subrange(from, to));
        } else {
            assert(from > 0);
            assert forall|i: int| 0 <= i < from - 1 implies is_white_space(rest[i]) by {
                assert(rest[i] == text[i + 1]);
            }
            assert forall|i: int| to - 1 <= i < rest.len() implies is_white_space(rest[i]) by {
                assert(rest[i] == text[i + 1]);
            }
            lemma_trimmed(rest, from - 1, to - 1);
            assert(rest.subrange(from - 1, to - 1) == text.subrange(from, to));
        }
    } else if text.len() > 0 && is_white_space(text.last()) {
        let rest = text.drop_last();
        assert(from == 0);
        assert(to < text.len());
        lemma_trimmed(rest, from, to);
        assert(rest.subrange(from, to) == text.subrange(from, to));
    } else {
        assert(text.subrange(0, text.len() as int) == text);
    }
}

/// What `published_record` writes for a version is read back as that
/// version, if the version has no white space at either end.
pub proof fn lemma_published_record_names_its_version(version: Seq<char>)
    requires
        version.len() > 0 ==> !is_white_space(version.first()) && !is_white_space(version.last()),
    ensures
        trimmed(version.push('\n')) == version,
{
    let record = version.push('\n');
    lemma_trimmed(record, 0, version.len() as int);
    assert(record.subrange(0, version.len() as int) == version);
}

/// Whether `recorded`, the text that the last build left behind, names
/// `version`. White space around the recorded version does not count.
pub fn already_published(recorded: &str, version: &str) -> (same: bool)
    ensures
        same == (trimmed(recorded@) == version@),
{
    let v = chars_of(recorded);
    let n = v.len();
    let mut from: usize = 0;
    while from < n && white_space(v[from])
        invariant
            n == v.len(),
            from <= n,
            forall|i: int| 0 <= i < from ==> is_white_space(v@[i]),
        decreases n - from,
    {
        from += 1;
    }
    let mut to: usize = n;
    while to > from && white_space(v[to - 1])
        invariant
            n == v.len(),
            from <= to <= n,
            forall|i: int| to <= i < n ==> is_white_space(v@[i]),
        decreases to,
    {
        to -= 1;
    }
    proof {
        lemma_trimmed(v@, from as int, to as int);
    }
    let w = chars_of(version);
    range_eq(&v, from, to, &w)
}

/// The names of the files of one build.
#[derive(Debug, Clone, PartialEq, Eq)]
pub struct Artifacts {
    /// The table as the store writes it.
    pub store: String,
    /// The lock file that the store keeps beside the table.
    pub lock: String,
    /// The compressed table.
    pub archive: String,
}

/// The file name of the table built from the dump of `version`.
pub open spec fn store_name(version: Seq<char>) -> Seq<char> {
    "sitelinks-"@ + version + ".mdb"@
}

/// The names of the files of the build from the dump of `version`.
pub fn artifacts(version: &str) -> (names: Artifacts)
    ensures
        names.store@ == store_name(version@),
        names.lock@ == store_name(version@) + "-lock"@,
        names.archive@ == store_name(version@) + ".zst"@,
{
    let mut store = "sitelinks-".to_owned();
    store.append(version);
    store.append(".mdb");
    let mut lock = store.clone();
    lock.append("-lock");
    let mut archive = store.clone();
    archive.append(".zst");
    Artifacts { store, lock, archive }
}

/// What a build leaves behind to say that `version` is out: the version and
/// a line feed.
pub fn published_record(version: &str) -> (record: String)
    ensures
        record@ == version@.push('\n'),
{
    let mut record = version.to_owned();
    record.push('\n');
    record
}

} // verus!
