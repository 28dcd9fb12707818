//! Full Unicode case folding, done by the crate `unicode-casefold`.

use unicode_casefold::{Locale, UnicodeCaseFold, Variant};
use vstd::prelude::*;

verus! {

/// What the folding tables of `unicode-casefold` give for one character under
/// full folding: the characters of its row, or the character itself where it
/// has no row.
pub uninterp spec fn table_fold(c: char) -> Seq<char>;

/// The full case folding of one character.
///
/// The Turkic rules map `I` to dotless `ı` and dotted `İ` to `i`. The
/// standard rules map `I` to `i`. Everything else is looked up in the
/// tables, alike under both rules.
pub open spec fn fold_char(c: char, turkic: bool) -> Seq<char> {
    if turkic && c == 'I' {
        seq!['\u{131}']
    } else if turkic && c == '\u{130}' {
        seq!['i']
    } else if c == 'I' {
        seq!['i']
    } else {
        table_fold(c)
    }
}

/// The full case folding of a text: the foldings of its characters, one
/// after the other.
pub open spec fn fold_text(text: Seq<char>, turkic: bool) -> Seq<char>
    decreases text.len(),
{
    if text.len() == 0 {
        Seq::empty()
    } else {
        fold_text(text.drop_last(), turkic) + fold_char(text.last(), turkic)
    }
}

/// Whether folding leaves each character of `text` as it is.
pub open spec fn is_folded(text: Seq<char>, turkic: bool) -> bool {
    forall|i: int| 0 <= i < text.len() ==> #[trigger] fold_char(text[i], turkic) == seq![text[i]]
}

/// Folding goes through a text piece by piece.
pub proof fn lemma_fold_text_concat(a: Seq<char>, b: Seq<char>, turkic: bool)
    ensures
        fold_text(a + b, turkic) == fold_text(a, turkic) + fold_text(b, turkic),
    decreases b.len(),
{
    if b.len() == 0 {
        assert(a + b == a);
    } else {
        lemma_fold_text_concat(a, b.drop_last(), turkic);
        assert((a + b).drop_last() == a + b.drop_last());
        assert((a + b).last() == b.last());
    }
}

/// A text that folding leaves as it is, character by character, is its own
/// folding.
pub proof fn lemma_fold_text_folded(text: Seq<char>, turkic: bool)
    requires
        is_folded(text, turkic),
    ensures
        fold_text(text, turkic) == text,
    decreases text.len(),
{
    if text.len() > 0 {
        let front = text.drop_last();
        assert forall|i: int| 0 <= i < front.len() implies #[trigger] fold_char(front[i], turkic)
            == seq![front[i]] by {
            assert(front[i] == text[i]);
        }
        lemma_fold_text_folded(front, turkic);
        assert(fold_char(text[text.len() - 1], turkic) == seq![text.last()]);
        assert(front + seq![text.last()] == text);
    }
}

/// The two sets of rules part only at `I` and dotted `İ`: a text with
/// neither folds alike under both.
pub proof fn lemma_fold_text_alike(text: Seq<char>)
    requires
        forall|i: int| 0 <= i < text.len() ==> text[i] != 'I' && text[i] != '\u{130}',
    ensures
        fold_text(text, true) == fold_text(text, false),
    decreases text.len(),
{
    if text.len() > 0 {
        lemma_fold_text_alike(text.drop_last());
    }
}

/// `UnicodeCaseFold::case_fold_with` of `unicode-casefold`, on one character
/// with `Variant::Full`, and with `Locale::Turkic` or `Locale::NonTurkic` as
/// `turkic` says.
///
/// Trusted: the characters that the iterator yields are `fold_char(c,
/// turkic)`. The crate tests the two Turkic cases before it looks into its
/// tables, and its first table sends `I` to `i`; what the tables hold for
/// the other characters is not spelled out here but named `table_fold`,
/// which is all that the standard rules consult.
#[verifier::external_body]
pub(crate) fn case_fold_with(c: char, turkic: bool) -> (folded: Vec<char>)
    ensures
        folded@ == fold_char(c, turkic),
        !turkic ==> folded@ == table_fold(c),
{
    let locale = if turkic { Locale::Turkic } else { Locale::NonTurkic };
    c.case_fold_with(Variant::Full, locale).collect()
}

/// Folds `title`, by the Turkic rules if `turkic` is set and by the standard
/// rules otherwise.
pub fn fold(title: &str, turkic: bool) -> (folded: Vec<char>)
    ensures
        folded@ == fold_text(title@, turkic),
{
    let mut folded: Vec<char> = Vec::new();
    for c in it: title.chars()
        invariant
            it.seq() == title@,
            folded@ == fold_text(it.seq().take(it.index() as int), turkic),
    {
        let ghost done = it.seq().take(it.index() as int);
        let ghost next = it.seq().take(it.index() + 1);
        let mut piece = case_fold_with(c, turkic);
        proof {
            assert(next.drop_last() == done);
            assert(next.last() == c);
        }
        folded.append(&mut piece);
    }
    assert(title@.take(title@.len() as int) == title@);
    folded
}

} // verus!
