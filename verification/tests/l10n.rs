use prpr::l10n::{lang_index, lang_tag, LANG_COUNT};
use unic_langid::LanguageIdentifier;

#[test]
fn check_langid() {
    // every shipped tag is a language identifier, written in canonical form
    for i in 0..LANG_COUNT {
        let id: LanguageIdentifier = lang_tag(i).parse().unwrap();
        assert_eq!(id.to_string(), lang_tag(i));
        assert_eq!(lang_index(&id.to_string()), Some(i));
    }
}

#[test]
fn parsed_system_locales_find_their_bundle() {
    let id: LanguageIdentifier = "zh_TW".parse().unwrap();
    assert_eq!(lang_index(&id.to_string()), Some(11));
    let id: LanguageIdentifier = "de-DE".parse().unwrap();
    assert_eq!(lang_index(&id.to_string()), None);
}
