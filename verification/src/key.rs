//! The canonical key of a page: language, project site and canonical title.

use crate::blank::{blank, is_blank};
use crate::fold::{
    case_fold_with, fold, fold_char, fold_text, is_folded, lemma_fold_text_alike,
    lemma_fold_text_concat, lemma_fold_text_folded,
};
use crate::turkic::{is_turkic, is_turkic_language};
use vstd::prelude::*;
use vstd::utf8::{char_is_scalar, char_u32_cast};

verus! {

/// `text` with an underscore in place of each blank.
pub open spec fn underscored(text: Seq<char>) -> Seq<char> {
    Seq::new(text.len(), |i: int| if is_blank(text[i]) { '_' } else { text[i] })
}

/// The canonical form of a title: folded, then with its blanks made
/// underscores.
pub open spec fn canonical_title(title: Seq<char>, turkic: bool) -> Seq<char> {
    underscored(fold_text(title, turkic))
}

/// What stands before the title in a key: the language, then `.wiki` and
/// the site unless the site is empty, then a colon.
pub open spec fn key_prefix(lang: Seq<char>, site: Seq<char>) -> Seq<char> {
    if site.len() == 0 {
        lang + seq![':']
    } else {
        lang + seq!['.', 'w', 'i', 'k', 'i'] + site + seq![':']
    }
}

/// The canonical key of the page `title` on the project `site` in the
/// language `lang`. The title is folded by the rules of that language.
pub open spec fn canonical_key(lang: Seq<char>, site: Seq<char>, title: Seq<char>) -> Seq<char> {
    key_prefix(lang, site) + canonical_title(title, is_turkic_language(lang))
}

/// No blank is left in a text whose blanks were made underscores.
pub proof fn lemma_underscored_has_no_blank(text: Seq<char>)
    ensures
        underscored(text).len() == text.len(),
        forall|i: int| 0 <= i < text.len() ==> !is_blank(#[trigger] underscored(text)[i]),
{
}

/// To make the blanks of a text underscores a second time changes nothing.
pub proof fn lemma_underscored_idempotent(text: Seq<char>)
    ensures
        underscored(underscored(text)) == underscored(text),
{
    lemma_underscored_has_no_blank(text);
    assert(underscored(underscored(text)) =~= underscored(text));
}

/// A canonical title holds no blank, whatever the title was.
pub proof fn lemma_canonical_title_has_no_blank(title: Seq<char>, turkic: bool)
    ensures
        forall|i: int|
            0 <= i < canonical_title(title, turkic).len() ==> !is_blank(
                #[trigger] canonical_title(title, turkic)[i],
            ),
{
    lemma_underscored_has_no_blank(fold_text(title, turkic));
}

/// A canonical title that folding leaves as it is, character by character,
/// is its own canonical form.
pub proof fn lemma_folded_title_is_canonical(title: Seq<char>, turkic: bool)
    requires
        is_folded(canonical_title(title, turkic), turkic),
    ensures
        canonical_title(canonical_title(title, turkic), turkic) == canonical_title(title, turkic),
{
    let once = canonical_title(title, turkic);
    lemma_fold_text_folded(once, turkic);
    lemma_underscored_idempotent(fold_text(title, turkic));
}

/// Whether folding is stable: whatever character is folded and has its
/// blanks made underscores, folding leaves each character of the outcome as
/// it is. This is a property of the folding tables, which `folding_is_stable`
/// decides by going through them.
pub open spec fn stable_folding() -> bool {
    forall|c: char, turkic: bool| is_folded(underscored(#[trigger] fold_char(c, turkic)), turkic)
}

/// Under stable folding, folding leaves every canonical title as it is.
pub proof fn lemma_canonical_title_is_folded(title: Seq<char>, turkic: bool)
    requires
        stable_folding(),
    ensures
        is_folded(canonical_title(title, turkic), turkic),
    decreases title.len(),
{
    if title.len() > 0 {
        lemma_canonical_title_is_folded(title.drop_last(), turkic);
        let front = canonical_title(title.drop_last(), turkic);
        let piece = underscored(fold_char(title.last(), turkic));
        let all = canonical_title(title, turkic);
        assert(is_folded(piece, turkic));
        assert(all =~= front + piece);
        assert forall|i: int| 0 <= i < all.len() implies #[trigger] fold_char(all[i], turkic)
            == seq![all[i]] by {
            if i < front.len() {
                assert(all[i] == front[i]);
            } else {
                assert(all[i] == piece[i - front.len()]);
            }
        }
    }
}

/// Canonicalization is idempotent under stable folding: the canonical form
/// of a canonical title is that title again.
pub proof fn lemma_canonical_title_idempotent(title: Seq<char>, turkic: bool)
    requires
        stable_folding(),
    ensures
        canonical_title(canonical_title(title, turkic), turkic) == canonical_title(title, turkic),
{
    lemma_canonical_title_is_folded(title, turkic);
    lemma_folded_title_is_canonical(title, turkic);
}

/// A title whose first `I` comes before any dotted `İ` has one canonical
/// form under the Turkic rules and another under the standard rules: the
/// first holds a dotless `ı` where the second holds `i`.
pub proof fn lemma_turkic_title_differs(title: Seq<char>, at: int)
    requires
        0 <= at < title.len(),
        title[at] == 'I',
        forall|j: int| 0 <= j < at ==> title[j] != 'I' && title[j] != '\u{130}',
    ensures
        canonical_title(title, true) != canonical_title(title, false),
{
    let front = title.take(at);
    let back = title.skip(at + 1);
    let upto = title.take(at + 1);
    assert(upto.drop_last() == front);
    assert(upto.last() == 'I');
    assert(upto + back == title);
    lemma_fold_text_alike(front);
    lemma_fold_text_concat(upto, back, true);
    lemma_fold_text_concat(upto, back, false);
    let n = fold_text(front, true).len() as int;
    let turkic = fold_text(title, true);
    let standard = fold_text(title, false);
    assert(turkic[n] == '\u{131}');
    assert(standard[n] == 'i');
    assert(canonical_title(title, true)[n] == '\u{131}');
    assert(canonical_title(title, false)[n] == 'i');
}

/// Appends `folded` to `out`, with an underscore for each blank.
///
/// Each character of `folded` gives exactly one character, at the same
/// place: an underscore if it is a blank, else itself.
pub fn push_underscored(out: &mut String, folded: &Vec<char>)
    ensures
        final(out)@ == old(out)@ + underscored(folded@),
        final(out)@.len() == old(out)@.len() + folded@.len(),
        forall|i: int|
            0 <= i < folded@.len() ==> #[trigger] final(out)@[old(out)@.len() + i] == (if is_blank(
                folded@[i],
            ) {
                '_'
            } else {
                folded@[i]
            }),
{
    let mut i: usize = 0;
    while i < folded.len()
        invariant
            i <= folded.len(),
            out@ == old(out)@ + underscored(folded@).take(i as int),
        decreases folded.len() - i,
    {
        let c = folded[i];
        if blank(c) {
            out.push('_');
        } else {
            out.push(c);
        }
        proof {
            let u = underscored(folded@);
            assert(u.take(i + 1) == u.take(i as int).push(u[i as int]));
        }
        i += 1;
    }
    proof {
        let u = underscored(folded@);
        assert(u.take(folded@.len() as int) == u);
    }
}

/// Whether folding leaves each character of the canonical form of the
/// one-character title `c` as it is.
fn char_is_stable(c: char, turkic: bool) -> (stable: bool)
    ensures
        stable == is_folded(underscored(fold_char(c, turkic)), turkic),
{
    let folded = case_fold_with(c, turkic);
    let ghost canonical = underscored(folded@);
    let mut i: usize = 0;
    while i < folded.len()
        invariant
            i <= folded.len(),
            folded@ == fold_char(c, turkic),
            canonical == underscored(folded@),
            forall|j: int| 0 <= j < i ==> #[trigger] fold_char(canonical[j], turkic) == seq![canonical[j]],
        decreases folded.len() - i,
    {
        let d = if blank(folded[i]) {
            '_'
        } else {
            folded[i]
        };
        assert(d == canonical[i as int]);
        let again = case_fold_with(d, turkic);
        if again.len() != 1 || again[0] != d {
            assert(fold_char(canonical[i as int], turkic) != seq![canonical[i as int]]) by {
                if again.len() == 1 {
                    assert(again@[0] != seq![d][0]);
                }
            }
            return false;
        }
        assert(again@ =~= seq![d]);
        i += 1;
    }
    true
}

/// Decides whether folding is stable, by folding every character there is
/// under both sets of rules.
pub fn folding_is_stable() -> (stable: bool)
    ensures
        stable == stable_folding(),
{
    let mut code: u32 = 0;
    while code <= 0x10ffff
        invariant
            code <= 0x110000,
            forall|c: char, turkic: bool|
                (c as u32) < code ==> is_folded(underscored(#[trigger] fold_char(c, turkic)), turkic),
        decreases 0x110000 - code,
    {
        match char::from_u32(code) {
            Some(c) => {
                if !char_is_stable(c, false) || !char_is_stable(c, true) {
                    return false;
                }
                assert forall|d: char, turkic: bool| (d as u32) < code + 1 implies is_folded(
                    underscored(#[trigger] fold_char(d, turkic)),
                    turkic,
                ) by {
                    if (d as u32) == code {
                        char_u32_cast(d, code);
                        char_u32_cast(c, code);
                    }
                }
            },
            None => {
                assert forall|d: char, turkic: bool| (d as u32) < code + 1 implies is_folded(
                    underscored(#[trigger] fold_char(d, turkic)),
                    turkic,
                ) by {
                    char_is_scalar(d);
                }
            },
        }
        code += 1;
    }
    assert forall|c: char, turkic: bool|
        is_folded(underscored(#[trigger] fold_char(c, turkic)), turkic) by {
        char_is_scalar(c);
    }
    true
}

/// The canonical form of `title` under the folding rules of `lang`.
pub fn canonicalize(lang: &str, title: &str) -> (canonical: String)
    ensures
        canonical@ == canonical_title(title@, is_turkic_language(lang@)),
        canonical@.len() == fold_text(title@, is_turkic_language(lang@)).len(),
        forall|i: int|
            0 <= i < canonical@.len() ==> #[trigger] canonical@[i] == (if is_blank(
                fold_text(title@, is_turkic_language(lang@))[i],
            ) {
                '_'
            } else {
                fold_text(title@, is_turkic_language(lang@))[i]
            }),
{
    let folded = fold(title, is_turkic(lang));
    let mut canonical = String::new();
    push_underscored(&mut canonical, &folded);
    canonical
}

/// The canonical key of the page `title` on the project `site` in the
/// language `lang`.
pub fn make_key(lang: &str, site: &str, title: &str) -> (key: String)
    ensures
        key@ == canonical_key(lang@, site@, title@),
{
    let mut key = String::new();
    key.append(lang);
    if !site.is_empty() {
        proof {
            reveal_strlit(".wiki");
        }
        key.append(".wiki");
        key.append(site);
    }
    key.push(':');
    let folded = fold(title, is_turkic(lang));
    push_underscored(&mut key, &folded);
    key
}

} // verus!
