use langinstall::languages::{
    add_language, all_enabled, describe_language, split_language_list, LanguageData,
};

#[test]
fn add_language_appends_new_tag() {
    let mut langs = vec!["en-US".to_string(), "fr-FR".to_string()];
    assert!(add_language(&mut langs, "vro"));
    assert_eq!(langs, vec!["en-US".to_string(), "fr-FR".to_string(), "vro".to_string()]);
}

#[test]
fn add_language_keeps_present_tag() {
    let mut langs = vec!["en-US".to_string(), "vro".to_string()];
    assert!(!add_language(&mut langs, "vro"));
    assert_eq!(langs, vec!["en-US".to_string(), "vro".to_string()]);
    let mut empty: Vec<String> = vec![];
    assert!(add_language(&mut empty, "se"));
    assert_eq!(empty, vec!["se".to_string()]);
}

#[test]
fn all_enabled_reports_any_failure() {
    assert!(all_enabled(&vec![]));
    assert!(all_enabled(&vec![true, true]));
    assert!(!all_enabled(&vec![true, false, true]));
}

#[test]
fn describe_known_and_unknown_language() {
    let data = LanguageData {
        tag: "sme".to_string(),
        name: "davvisámegiella".to_string(),
        english_name: "Northern Sami".to_string(),
        localised_name: "davvisámegiella".to_string(),
        script_name: "Latin".to_string(),
    };
    assert_eq!(
        describe_language("sme-Latn-NO", Some(&data)),
        "Tag: sme-Latn-NO\nName: davvisámegiella\nEnglish Name: Northern Sami\nNative Name: davvisámegiella\nScript: Latin"
    );
    assert_eq!(describe_language("xx", None), "xx: Unsupported tag.");
}

#[test]
fn split_language_list_matches_str_split() {
    for s in ["en-US;fr-FR;vro", "", ";", "en-US;", ";;a", "sme-Latn-NO"] {
        let expected: Vec<String> = s.split(';').map(|x| x.to_owned()).collect();
        assert_eq!(split_language_list(s), expected, "{:?}", s);
    }
}
