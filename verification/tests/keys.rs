use sitelinks::blank::{blank, control, white_space};
use sitelinks::fold::fold;
use sitelinks::key::{canonicalize, folding_is_stable, make_key, push_underscored};
use sitelinks::turkic::{is_turkic, TURKIC_CODES};

#[test]
fn make_key_folds_and_underscores() {
    assert_eq!(make_key("en", "", "Barack Obama"), "en:barack_obama");
}

#[test]
fn make_key_writes_the_site_after_the_language() {
    assert_eq!(make_key("en", "source", "Hamlet"), "en.wikisource:hamlet");
    assert_eq!(make_key("und", "commons", "File:X.JPG"), "und.wikicommons:file:x.jpg");
    assert_eq!(make_key("de", "", ""), "de:");
    assert_eq!(make_key("", "", "A"), ":a");
}

#[test]
fn make_key_leaves_language_and_site_as_they_are() {
    assert_eq!(make_key("EN", "Source Text", "A B"), "EN.wikiSource Text:a_b");
}

#[test]
fn folding_is_done_by_the_tables() {
    assert_eq!(canonicalize("en", "ABC"), "abc");
    assert_eq!(canonicalize("de", "Straße"), "strasse");
    assert_eq!(canonicalize("de", "STRASSE"), "strasse");
    assert_eq!(canonicalize("el", "ΐ"), "\u{3b9}\u{308}\u{301}");
    assert_eq!(canonicalize("en", "ǅ"), "ǆ");
    assert_eq!(canonicalize("ja", "西遊記"), "西遊記");
    assert_eq!(fold("AbC", false), vec!['a', 'b', 'c']);
    assert_eq!(fold("ß", true), vec!['s', 's']);
}

#[test]
fn turkic_languages_fold_the_letter_i_their_own_way() {
    assert_eq!(canonicalize("az", "I"), "\u{131}");
    assert_eq!(canonicalize("en", "I"), "i");
    assert_ne!(canonicalize("az", "Iğdır"), canonicalize("en", "Iğdır"));
    assert_eq!(canonicalize("tr", "Iğdır"), "\u{131}ğd\u{131}r");
    assert_eq!(canonicalize("en", "Iğdır"), "iğd\u{131}r");
    assert_eq!(canonicalize("tr", "İstanbul"), "istanbul");
    assert_eq!(canonicalize("en", "İstanbul"), "i\u{307}stanbul");
    assert_eq!(make_key("tr", "", "DIŞ"), "tr:d\u{131}ş");
    assert_eq!(make_key("de", "", "DIŞ"), "de:diş");
}

#[test]
fn titles_without_the_letter_i_fold_alike() {
    for title in ["Ankara", "ÇANKAYA", "Über uns", "ß"] {
        assert_eq!(canonicalize("tr", title), canonicalize("en", title));
    }
}

#[test]
fn turkic_codes_are_the_closed_list() {
    assert_eq!(TURKIC_CODES.len(), 46);
    for code in TURKIC_CODES {
        assert!(is_turkic(code));
        assert!(code.len() == 2 || code.len() == 3);
    }
    for code in ["az", "ba", "cv", "kk", "ky", "tk", "tr", "tt", "ug", "uz", "sah", "crh", "zkz", "aib"] {
        assert!(is_turkic(code));
    }
    for code in ["", "en", "de", "TR", "Tr", "tr ", "t", "tur", "a", "azb", "und", "commons"] {
        assert!(!is_turkic(code));
    }
}

#[test]
fn blanks_become_one_underscore_each() {
    assert_eq!(canonicalize("en", "a b"), "a_b");
    assert_eq!(canonicalize("en", "a  b"), "a__b");
    assert_eq!(canonicalize("en", " a "), "_a_");
    assert_eq!(canonicalize("en", "a\tb\nc\rd"), "a_b_c_d");
    assert_eq!(canonicalize("en", "a\u{0}b\u{1f}c\u{7f}d\u{9f}e"), "a_b_c_d_e");
    assert_eq!(canonicalize("en", "a\u{85}b\u{a0}c\u{1680}d"), "a_b_c_d");
    assert_eq!(canonicalize("en", "a\u{2000}b\u{200a}c\u{2028}d\u{2029}e"), "a_b_c_d_e");
    assert_eq!(canonicalize("en", "a\u{202f}b\u{205f}c\u{3000}d"), "a_b_c_d");
    assert_eq!(canonicalize("en", "A_B"), "a_b");
}

#[test]
fn other_characters_are_left_as_folded() {
    assert_eq!(canonicalize("en", "a\u{200b}b"), "a\u{200b}b");
    assert_eq!(canonicalize("en", "a\u{180e}b"), "a\u{180e}b");
    assert_eq!(canonicalize("en", "a\u{feff}b"), "a\u{feff}b");
    assert_eq!(canonicalize("en", "a-b.c:d/e"), "a-b.c:d/e");
    assert_eq!(canonicalize("en", "!\"#$%&'()*+,"), "!\"#$%&'()*+,");
}

#[test]
fn blanks_are_control_codes_and_white_space() {
    for c in ['\u{0}', '\u{8}', '\u{1f}', '\u{7f}', '\u{80}', '\u{9f}'] {
        assert!(control(c));
        assert!(blank(c));
    }
    for c in ['\t', '\n', '\u{b}', '\u{c}', '\r', ' ', '\u{85}', '\u{a0}', '\u{1680}', '\u{2000}',
        '\u{2005}', '\u{200a}', '\u{2028}', '\u{2029}', '\u{202f}', '\u{205f}', '\u{3000}']
    {
        assert!(white_space(c));
        assert!(blank(c));
    }
    for c in ['_', 'a', '!', '~', '\u{a1}', '\u{167f}', '\u{1681}', '\u{1fff}', '\u{200b}',
        '\u{2027}', '\u{202a}', '\u{2060}', '\u{2fff}', '\u{3001}', '\u{10ffff}']
    {
        assert!(!blank(c));
    }
}

#[test]
fn classes_agree_with_the_standard_library() {
    let mut code: u32 = 0;
    while code <= 0x10ffff {
        if let Some(c) = char::from_u32(code) {
            assert_eq!(control(c), c.is_control());
            assert_eq!(white_space(c), c.is_whitespace());
            assert_eq!(blank(c), c.is_control() || c.is_whitespace());
        }
        code += 1;
    }
}

#[test]
fn push_underscored_appends() {
    let mut out = String::from("x:");
    push_underscored(&mut out, &vec!['a', ' ', '\u{0}', 'B']);
    assert_eq!(out, "x:a__B");
    push_underscored(&mut out, &vec![]);
    assert_eq!(out, "x:a__B");
}

#[test]
fn canonical_titles_stay_as_they_are() {
    for lang in ["en", "tr", "az", "de"] {
        for title in [
            "Barack Obama",
            "  Leading and trailing  ",
            "Iğdır İli",
            "Straße\tNr.\u{a0}5",
            "ΐ ǅ ﬃ",
            "I İ ı i",
            "西遊記",
            "",
            "_",
        ] {
            let once = canonicalize(lang, title);
            let twice = canonicalize(lang, &once);
            assert_eq!(twice, once);
            let key = make_key(lang, "", &once);
            assert_eq!(key, make_key(lang, "", title));
        }
    }
}

#[test]
fn folding_leaves_its_own_output_alone() {
    let mut code: u32 = 0;
    while code <= 0x10ffff {
        if let Some(c) = char::from_u32(code) {
            let text = c.to_string();
            for turkic in [false, true] {
                let once: String = fold(&text, turkic).into_iter().collect();
                let twice: String = fold(&once, turkic).into_iter().collect();
                assert_eq!(twice, once);
            }
        }
        code += 1;
    }
    assert_eq!(fold("_", false), vec!['_']);
    assert_eq!(fold("_", true), vec!['_']);
}

#[test]
fn folding_is_found_stable() {
    assert!(folding_is_stable());
}

#[test]
fn one_character_folds_to_its_row() {
    assert_eq!(fold("A", false), vec!['a']);
    assert_eq!(fold("a", false), vec!['a']);
    assert_eq!(fold("I", false), vec!['i']);
    assert_eq!(fold("I", true), vec!['\u{131}']);
    assert_eq!(fold("\u{130}", true), vec!['i']);
    assert_eq!(fold("\u{130}", false), vec!['i', '\u{307}']);
    assert_eq!(fold("\u{131}", true), vec!['\u{131}']);
    assert_eq!(fold("\u{131}", false), vec!['\u{131}']);
    assert_eq!(fold("ß", false), vec!['s', 's']);
    assert_eq!(fold("\u{390}", false), vec!['\u{3b9}', '\u{308}', '\u{301}']);
    assert_eq!(fold(" ", false), vec![' ']);
    assert_eq!(fold("_", true), vec!['_']);
    assert_eq!(fold("", true), Vec::<char>::new());
}
