//! The two languages.
use treff::i18n::{catalogue, Lang};

#[test]
fn the_header_decides_and_the_default_is_english() {
    assert_eq!(Lang::from_accept_language("de-DE,de;q=0.9"), Lang::De);
    assert_eq!(Lang::from_accept_language("en-US,en;q=0.9"), Lang::En);
    assert_eq!(Lang::from_accept_language("DE"), Lang::De);
    assert_eq!(Lang::from_accept_language(""), Lang::En);
    assert_eq!(Lang::from_accept_language("kl-GL"), Lang::En);
    assert_eq!(Lang::from_accept_language("kl-GL,de;q=0.8"), Lang::De);
}

#[test]
fn both_catalogues_carry_exactly_the_same_keys() {
    let words = catalogue();
    assert!(!words.is_empty(), "the catalogues are empty");
    for word in &words {
        for lang in [Lang::De, Lang::En] {
            let said = if lang == Lang::De { word.de } else { word.en };
            assert_eq!(lang.t(word.key), said, "{} drifted apart", word.key);
        }
    }
    let mut keys: Vec<&str> = words.iter().map(|w| w.key).collect();
    keys.sort_unstable();
    keys.dedup();
    assert_eq!(keys.len(), words.len(), "a key is listed twice");
}

#[test]
fn no_entry_is_empty_in_either_language() {
    for word in catalogue() {
        assert!(!word.de.trim().is_empty(), "{} is empty in de", word.key);
        assert!(!word.en.trim().is_empty(), "{} is empty in en", word.key);
    }
}

#[test]
fn a_key_that_exists_reads_differently_in_the_two_languages() {
    assert_ne!(Lang::De.t("sign_out"), Lang::En.t("sign_out"));
}

#[test]
fn an_unknown_key_reads_as_itself() {
    assert_eq!(Lang::De.t("no_such_key"), "no_such_key");
    assert_eq!(Lang::En.t(""), "");
}

#[test]
fn a_code_asks_for_its_own_language() {
    for lang in [Lang::De, Lang::En] {
        assert_eq!(Lang::from_accept_language(lang.code()), lang);
    }
    assert_eq!(Lang::De.code(), "de");
    assert_eq!(Lang::En.code(), "en");
}
