//! Site keys such as `enwiki` or `dewikisource`, and how they split into a
//! language and a project site.

use crate::text::{chars_of, str_eq, string_of_range};
use vstd::prelude::*;

verus! {

/// The language and the project site that a site key stands for. An empty
/// site is the main project of the language.
#[derive(Debug, Clone, PartialEq, Eq)]
pub struct SiteKey {
    pub lang: String,
    pub site: String,
}

/// A `SiteKey` as two sequences of characters.
pub struct SiteKeyView {
    pub lang: Seq<char>,
    pub site: Seq<char>,
}

impl View for SiteKey {
    type V = SiteKeyView;

    open spec fn view(&self) -> SiteKeyView {
        SiteKeyView { lang: self.lang@, site: self.site@ }
    }
}

/// The language of a key that names none: undetermined.
pub open spec fn undetermined() -> Seq<char> {
    "und"@
}

/// The two projects that have no language of their own.
pub open spec fn is_language_free_project(name: Seq<char>) -> bool {
    name == "commons"@ || name == "species"@
}

/// The marker that parts the language from the site.
pub open spec fn marker() -> Seq<char> {
    seq!['w', 'i', 'k', 'i']
}

/// Whether the marker `wiki` stands in `s` at index `i`.
pub open spec fn marker_at(s: Seq<char>, i: int) -> bool {
    &&& 0 <= i
    &&& i + 4 <= s.len()
    &&& s[i] == 'w'
    &&& s[i + 1] == 'i'
    &&& s[i + 2] == 'k'
    &&& s[i + 3] == 'i'
}

/// Whether the marker occurs in `s` at all.
pub open spec fn has_marker(s: Seq<char>) -> bool {
    exists|i: int| marker_at(s, i)
}

/// Whether `p` is where the marker first occurs in `s`.
pub open spec fn is_first_marker(s: Seq<char>, p: int) -> bool {
    marker_at(s, p) && forall|j: int| 0 <= j < p ==> !marker_at(s, j)
}

/// The index of the first marker of `s`, or the length of `s` if it has
/// none.
pub open spec fn first_marker(s: Seq<char>) -> int {
    if has_marker(s) {
        choose|p: int| is_first_marker(s, p)
    } else {
        s.len() as int
    }
}

/// What stands in `s` before its first marker: all of `s` if it has none.
pub open spec fn first_segment(s: Seq<char>) -> Seq<char> {
    s.take(first_marker(s))
}

/// What stands in `s` between its first marker and the next one that begins
/// after it, or the end.
pub open spec fn second_segment(s: Seq<char>) -> Seq<char> {
    first_segment(s.skip(first_marker(s) + 4))
}

/// The language and site for the two leading segments of a site key.
///
/// An empty language is undetermined. A project without a language, written
/// where the language stands and with nothing after the marker, is the site,
/// and the language is undetermined.
pub open spec fn resolved(lang: Seq<char>, site: Seq<char>) -> SiteKeyView {
    let lang = if lang.len() == 0 {
        undetermined()
    } else {
        lang
    };
    if site.len() == 0 && is_language_free_project(lang) {
        SiteKeyView { lang: undetermined(), site: lang }
    } else {
        SiteKeyView { lang, site }
    }
}

/// What a site key stands for; nothing if the marker does not occur in it.
pub open spec fn decomposed(site_key: Seq<char>) -> Option<SiteKeyView> {
    if has_marker(site_key) {
        Some(resolved(first_segment(site_key), second_segment(site_key)))
    } else {
        None
    }
}

/// An index with the marker and none before it is the first marker.
pub proof fn lemma_first_marker(s: Seq<char>, p: int)
    requires
        is_first_marker(s, p),
    ensures
        has_marker(s),
        first_marker(s) == p,
{
    let q = choose|q: int| is_first_marker(s, q);
    assert(is_first_marker(s, q));
    if q < p {
        assert(!marker_at(s, q));
    }
    if p < q {
        assert(!marker_at(s, p));
    }
}

/// A sequence with no marker from index 0 on is its own first segment.
pub proof fn lemma_no_marker(s: Seq<char>)
    requires
        forall|j: int| 0 <= j ==> !marker_at(s, j),
    ensures
        !has_marker(s),
        first_segment(s) == s,
{
    assert(s.take(s.len() as int) == s);
}

/// A language, the marker and a site, written one after the other, split
/// into that language and that site again, if neither holds the marker
/// itself. The two are then resolved as always: an empty language is
/// undetermined, and a project without a language moves to the site.
pub proof fn lemma_decompose_joined(lang: Seq<char>, site: Seq<char>)
    requires
        !has_marker(lang),
        !has_marker(site),
    ensures
        decomposed(lang + marker() + site) == Some(resolved(lang, site)),
{
    let s = lang + marker() + site;
    let p = lang.len() as int;
    assert(marker_at(s, p));
    assert forall|j: int| 0 <= j < p implies !marker_at(s, j) by {
        if marker_at(s, j) {
            if j + 4 <= p {
                assert(marker_at(lang, j));
            }
        }
    }
    lemma_first_marker(s, p);
    assert(s.take(p) == lang);
    assert(s.skip(p + 4) == site);
    assert forall|j: int| 0 <= j implies !marker_at(site, j) by {}
    lemma_no_marker(site);
}

/// A key that is a language and the marker, with nothing after it, stands
/// for that language and the main project: the site is empty. The language
/// is not empty, does not hold the marker, and is not one of the two
/// projects without a language, which such a key would name as the site.
pub proof fn lemma_decompose_language_only(lang: Seq<char>)
    requires
        lang.len() > 0,
        !has_marker(lang),
        !is_language_free_project(lang),
    ensures
        decomposed(lang + marker()) == Some(SiteKeyView { lang, site: Seq::empty() }),
{
    let none = Seq::<char>::empty();
    assert forall|j: int| 0 <= j implies !marker_at(none, j) by {}
    lemma_no_marker(none);
    lemma_decompose_joined(lang, none);
    assert(lang + marker() + none == lang + marker());
}

/// The first index at or after `from` where the marker stands in `v`, or the
/// length of `v` if there is none.
fn find_marker(v: &Vec<char>, from: usize) -> (p: usize)
    requires
        from <= v.len(),
    ensures
        from <= p <= v.len(),
        p < v.len() ==> marker_at(v@, p as int),
        forall|j: int| from <= j < p ==> !marker_at(v@, j),
        p == v.len() ==> forall|j: int| from <= j ==> !marker_at(v@, j),
{
    let n = v.len();
    let mut i: usize = from;
    while i < n && n - i >= 4
        invariant
            n == v.len(),
            from <= i <= n,
            forall|j: int| from <= j < i ==> !marker_at(v@, j),
        decreases n - i,
    {
        if v[i] == 'w' && v[i + 1] == 'i' && v[i + 2] == 'k' && v[i + 3] == 'i' {
            return i;
        }
        i += 1;
    }
    n
}

/// Splits a site key into language and project site.
///
/// The key is cut at each marker `wiki`. The first piece is the language,
/// the second the site; a key without a marker has no second piece and
/// gives nothing.
pub fn decompose(site_key: &str) -> (r: Option<SiteKey>)
    ensures
        r is None <==> !has_marker(site_key@),
        match r {
            Some(k) => decomposed(site_key@) == Some(k@),
            None => decomposed(site_key@) is None,
        },
{
    let v = chars_of(site_key);
    let p = find_marker(&v, 0);
    if p == v.len() {
        proof {
            lemma_no_marker(v@);
        }
        return None;
    }
    let q = find_marker(&v, p + 4);
    let mut lang = string_of_range(&v, 0, p);
    let mut site = string_of_range(&v, p + 4, q);
    proof {
        lemma_first_marker(v@, p as int);
        let rest = v@.skip(p + 4);
        assert forall|j: int| 0 <= j implies marker_at(rest, j) == marker_at(v@, p + 4 + j) by {
            if j + 4 <= rest.len() {
                assert(rest[j] == v@[p + 4 + j]);
                assert(rest[j + 1] == v@[p + 4 + j + 1]);
                assert(rest[j + 2] == v@[p + 4 + j + 2]);
                assert(rest[j + 3] == v@[p + 4 + j + 3]);
            }
        }
        if q < v.len() {
            assert(marker_at(rest, q - (p + 4)));
            lemma_first_marker(rest, q - (p + 4));
        } else {
            lemma_no_marker(rest);
        }
        assert(rest.take(q - (p + 4)) == v@.subrange(p + 4, q as int));
        assert(v@.take(p as int) == v@.subrange(0, p as int));
        assert(lang@ == first_segment(site_key@));
        assert(site@ == second_segment(site_key@));
    }
    if p == 0 {
        lang = "und".to_owned();
    }
    if q == p + 4 && (str_eq(lang.as_str(), "commons") || str_eq(lang.as_str(), "species")) {
        site = lang;
        lang = "und".to_owned();
    }
    Some(SiteKey { lang, site })
}

} // verus!
