//! The languages whose titles are folded by the Turkic rules.

use crate::text::str_eq;
use vstd::prelude::*;

verus! {

/// The codes of the Turkic languages, living and historical.
///
/// Äynu, Southern Altai, Northern Altai, Azerbaijani, Bashkir, Chagatai,
/// Shor, Chulym, Crimean Tatar, Chuvash, Dolgan, Gagauz, Ili Turki,
/// Krymchak, Karakalpak, Karaim, Tofa, Khakas, Kazakh, Khalaj, Khorasani
/// Turkic, Karachay-Balkar, Kumyk, Kyrgyz, Nogai, Ottoman Turkish, Orkhon
/// Turkic, Old Uyghur, Kipchak, Qashqai, Yakut, Salchuq, Siberian Tatar,
/// Turkmen, Turkish, Tatar, Tuvan, Uyghur, Urum, Uzbek, Bulgar, Pecheneg,
/// Middle Turkic, Western Yugur, Khorezmian, Khazar.
pub const TURKIC_CODES: [&'static str; 46] = [
    "aib", "alt", "atv", "az", "ba", "chg", "cjs", "clw", "crh", "cv",
    "dlg", "gag", "ili", "jct", "kaa", "kdr", "kim", "kjh", "kk", "klj",
    "kmz", "krc", "kum", "ky", "nog", "ota", "otk", "oui", "qwm", "qxq",
    "sah", "slq", "sty", "tk", "tr", "tt", "tyv", "ug", "uum", "uz",
    "xbo", "xpc", "xqa", "ybe", "zkh", "zkz",
];

/// Whether `lang` is one of `TURKIC_CODES`.
pub open spec fn is_turkic_language(lang: Seq<char>) -> bool {
    exists|i: int| 0 <= i < TURKIC_CODES@.len() && (#[trigger] TURKIC_CODES@[i])@ == lang
}

/// Whether `lang` is the code of a Turkic language.
pub fn is_turkic(lang: &str) -> (b: bool)
    ensures
        b == is_turkic_language(lang@),
{
    let mut i: usize = 0;
    while i < 46
        invariant
            i <= 46,
            TURKIC_CODES@.len() == 46,
            forall|j: int| 0 <= j < i ==> (#[trigger] TURKIC_CODES@[j])@ != lang@,
        decreases 46 - i,
    {
        if str_eq(TURKIC_CODES[i], lang) {
            return true;
        }
        i += 1;
    }
    false
}

} // verus!
