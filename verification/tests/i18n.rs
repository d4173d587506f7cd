use openvictoria::i18n::{Language, LoadError, Locale};

const ENGLISH: &str = "app-title = Open Victoria\nturn-number = Turn { $number }\n-brand = Victoria\nonly-attribute =\n    .label = Label\n";
const CHINESE: &str = "app-title = 开放维多利亚\n";

fn loaded(lang: Language) -> Locale {
    let mut locale = Locale::new(lang);
    assert_eq!(locale.load(Language::English, ENGLISH.to_string()), Ok(()));
    assert_eq!(locale.load(Language::Chinese, CHINESE.to_string()), Ok(()));
    locale
}

#[test]
fn language_tags_and_names() {
    assert_eq!(Language::English.as_str(), "en-US");
    assert_eq!(Language::Chinese.as_str(), "zh-CN");
    assert_eq!(Language::English.get_display_name(), "English");
    assert_eq!(Language::Chinese.get_display_name(), "中文");
    assert_eq!(Language::all(), vec![Language::English, Language::Chinese]);
}

#[test]
fn language_from_tag() {
    assert_eq!(Language::from_str("en-US"), Some(Language::English));
    assert_eq!(Language::from_str("zh-CN"), Some(Language::Chinese));
    assert_eq!(Language::from_str("en-us"), None);
    assert_eq!(Language::from_str("en"), None);
    assert_eq!(Language::from_str(""), None);
    assert_eq!(Language::from_str("fr-FR"), None);
    for language in Language::all() {
        assert_eq!(Language::from_str(language.as_str()), Some(language));
    }
}

#[test]
fn a_new_locale_has_no_messages() {
    let locale = Locale::new(Language::Chinese);
    assert_eq!(*locale.get_language(), Language::Chinese);
    assert_eq!(locale.get_message("app-title"), "Unknown message key: app-title");
    assert_eq!(locale.get_message(""), "Unknown message key: ");
}

#[test]
fn messages_come_in_the_language_in_use() {
    let mut locale = loaded(Language::English);
    assert_eq!(locale.get_message("app-title"), "Open Victoria");
    locale.set_language(Language::Chinese);
    assert_eq!(*locale.get_language(), Language::Chinese);
    assert_eq!(locale.get_message("app-title"), "开放维多利亚");
    assert_eq!(locale.get_message("turn-number"), "Unknown message key: turn-number");
    locale.set_language(Language::English);
    assert_eq!(locale.get_message("app-title"), "Open Victoria");
}

#[test]
fn a_language_that_is_not_loaded_has_no_messages() {
    let mut locale = Locale::new(Language::English);
    assert_eq!(locale.load(Language::English, ENGLISH.to_string()), Ok(()));
    assert_eq!(locale.get_message("app-title"), "Open Victoria");
    locale.set_language(Language::Chinese);
    assert_eq!(locale.get_message("app-title"), "Unknown message key: app-title");
}

#[test]
fn unknown_keys_are_named() {
    let locale = loaded(Language::English);
    assert_eq!(locale.get_message("no-such-key"), "Unknown message key: no-such-key");
    assert_eq!(locale.get_message("only-attribute"), "Unknown message key: only-attribute");
    assert_eq!(locale.get_message("brand"), "Unknown message key: brand");
    assert_eq!(
        locale.get_message_args("no-such-key", &[("number", "3")]),
        "Unknown message key: no-such-key"
    );
}

#[test]
fn arguments_are_filled_in() {
    let locale = loaded(Language::English);
    assert_eq!(
        locale.get_message_args("turn-number", &[("number", "7")]),
        "Turn \u{2068}7\u{2069}"
    );
    assert_eq!(locale.get_message_args("app-title", &[("number", "7")]), "Open Victoria");
    assert_eq!(locale.get_message_args("app-title", &[]), "Open Victoria");
}

#[test]
fn a_message_that_lacks_an_argument_is_unknown() {
    let locale = loaded(Language::English);
    assert_eq!(locale.get_message("turn-number"), "Unknown message key: turn-number");
    assert_eq!(
        locale.get_message_args("turn-number", &[("other", "7")]),
        "Unknown message key: turn-number"
    );
}

#[test]
fn resolve_gives_the_text_only_without_errors() {
    assert_eq!(Locale::resolve("k", Some(("text".to_string(), 0))), "text");
    assert_eq!(Locale::resolve("k", Some(("text".to_string(), 1))), "Unknown message key: k");
    assert_eq!(Locale::resolve("k", None), "Unknown message key: k");
    assert_eq!(Locale::resolve("", Some((String::new(), 0))), "");
}

#[test]
fn a_source_that_does_not_parse_is_refused() {
    let mut locale = loaded(Language::English);
    assert_eq!(
        locale.load(Language::English, "this is no message\n".to_string()),
        Err(LoadError::InvalidResource)
    );
    assert_eq!(locale.get_message("app-title"), "Open Victoria");
}

#[test]
fn a_source_with_a_message_twice_is_refused() {
    let mut locale = Locale::new(Language::English);
    assert_eq!(
        locale.load(Language::English, "a = one\na = two\n".to_string()),
        Err(LoadError::DuplicateMessage)
    );
    assert_eq!(locale.get_message("a"), "Unknown message key: a");
}

#[test]
fn loading_again_replaces_the_messages_of_the_language() {
    let mut locale = loaded(Language::English);
    assert_eq!(locale.load(Language::English, "other = Other\n".to_string()), Ok(()));
    assert_eq!(locale.get_message("other"), "Other");
    assert_eq!(locale.get_message("app-title"), "Unknown message key: app-title");
    locale.set_language(Language::Chinese);
    assert_eq!(locale.get_message("app-title"), "开放维多利亚");
}

#[test]
fn an_empty_source_loads_and_has_no_messages() {
    let mut locale = Locale::new(Language::English);
    assert_eq!(locale.load(Language::English, String::new()), Ok(()));
    assert_eq!(locale.get_message("anything"), "Unknown message key: anything");
}

#[test]
fn the_first_step_that_goes_wrong_gives_the_error() {
    assert_eq!(Locale::outcome(true, true, true), Ok(()));
    assert_eq!(Locale::outcome(true, true, false), Err(LoadError::DuplicateMessage));
    assert_eq!(Locale::outcome(true, false, true), Err(LoadError::InvalidResource));
    assert_eq!(Locale::outcome(true, false, false), Err(LoadError::InvalidResource));
    assert_eq!(Locale::outcome(false, true, true), Err(LoadError::InvalidLanguage));
    assert_eq!(Locale::outcome(false, true, false), Err(LoadError::InvalidLanguage));
    assert_eq!(Locale::outcome(false, false, true), Err(LoadError::InvalidLanguage));
    assert_eq!(Locale::outcome(false, false, false), Err(LoadError::InvalidLanguage));
}

#[test]
fn a_message_and_a_term_of_one_name_are_refused() {
    let mut locale = Locale::new(Language::English);
    assert_eq!(
        locale.load(Language::English, "a = one\n-a = two\n".to_string()),
        Err(LoadError::DuplicateMessage)
    );
    assert_eq!(
        locale.load(Language::English, "-a = one\na = two\n".to_string()),
        Err(LoadError::DuplicateMessage)
    );
    assert_eq!(locale.get_message("a"), "Unknown message key: a");
}

#[test]
fn sources_with_distinct_names_load_for_both_languages() {
    for language in Language::all() {
        let mut locale = Locale::new(language);
        assert_eq!(
            locale.load(language, "a = one\n-b = two\nc = { -b } three\n".to_string()),
            Ok(())
        );
        assert_eq!(locale.get_message("a"), "one");
        assert_eq!(locale.get_message("c"), "two three");
        assert_eq!(locale.get_message("b"), "Unknown message key: b");
    }
}

#[test]
fn a_source_with_a_comment_between_messages_loads() {
    let mut locale = Locale::new(Language::English);
    assert_eq!(locale.load(Language::English, "# note\na = one\n\n## part\nb = two\n".to_string()), Ok(()));
    assert_eq!(locale.get_message("b"), "two");
}

#[test]
fn a_broken_unicode_escape_before_a_wide_character_is_refused() {
    let mut locale = loaded(Language::English);
    assert_eq!(
        locale.load(Language::English, "a = { \"\\u00\u{e9}\" }\n".to_string()),
        Err(LoadError::InvalidResource)
    );
    assert_eq!(
        locale.load(Language::English, "a = { \"\\U0000\u{4e2d}\" }\n".to_string()),
        Err(LoadError::InvalidResource)
    );
    assert_eq!(locale.get_message("app-title"), "Open Victoria");
}

#[test]
fn a_broken_unicode_escape_in_ascii_is_a_parse_error() {
    let mut locale = Locale::new(Language::English);
    assert_eq!(
        locale.load(Language::English, "a = { \"\\u00zz\" }\n".to_string()),
        Err(LoadError::InvalidResource)
    );
    assert_eq!(
        locale.load(Language::English, "a = { \"\\u00".to_string()),
        Err(LoadError::InvalidResource)
    );
}

#[test]
fn unicode_escapes_load_and_format() {
    let mut locale = Locale::new(Language::English);
    assert_eq!(
        locale.load(Language::English, "a = caf{ \"\\u00e9\" } { \"\\U01F602\" }\n".to_string()),
        Ok(())
    );
    assert_eq!(locale.get_message("a"), "caf\u{e9} \u{1F602}");
}

const PLURAL: &str = "-t = { $n ->\n    [one] one\n   *[other] other\n}\n";

#[test]
fn a_number_with_twenty_fraction_digits_is_refused() {
    let mut locale = Locale::new(Language::English);
    let source = format!("{}a = {{ -t(n: 1.00000000000000000000) }}\n", PLURAL);
    assert_eq!(locale.load(Language::English, source), Err(LoadError::InvalidResource));
    assert_eq!(locale.get_message("a"), "Unknown message key: a");
}

#[test]
fn a_number_with_nineteen_fraction_digits_selects_its_plural_form() {
    for language in Language::all() {
        let mut locale = Locale::new(language);
        let source = format!(
            "{}a = {{ -t(n: 1.5000000000000000000) }}\nb = {{ -t(n: 1) }}\nc = {{ -t(n: 0.0000000000000000001) }}\n",
            PLURAL
        );
        assert_eq!(locale.load(language, source), Ok(()));
        assert_eq!(locale.get_message("a"), "other");
        let one = if language == Language::English { "one" } else { "other" };
        assert_eq!(locale.get_message("b"), one);
        assert_eq!(locale.get_message("c"), "other");
    }
}

#[test]
fn a_selector_that_is_an_argument_loads_and_selects() {
    let mut locale = Locale::new(Language::English);
    let source = "c = { $n ->\n    [one] one\n    [x] ex\n   *[other] other\n}\n";
    assert_eq!(locale.load(Language::English, source.to_string()), Ok(()));
    assert_eq!(locale.get_message_args("c", &[("n", "x")]), "ex");
    assert_eq!(locale.get_message_args("c", &[("n", "1")]), "other");
    assert_eq!(locale.get_message("c"), "Unknown message key: c");
}

#[test]
fn a_selector_written_out_in_the_source_is_refused() {
    let mut locale = Locale::new(Language::English);
    for source in [
        "a = { 1 ->\n    [one] one\n   *[other] other\n}\n",
        "a = { -1.5 ->\n    [one] one\n   *[other] other\n}\n",
        "a = { \"x\" ->\n    [x] ex\n   *[other] other\n}\n",
        "a = { \"x\"\n   ->\n    [x] ex\n   *[other] other\n}\n",
    ] {
        assert_eq!(locale.load(Language::English, source.to_string()), Err(LoadError::InvalidResource));
    }
    assert_eq!(locale.get_message("a"), "Unknown message key: a");
}

#[test]
fn a_placeable_in_a_placeable_is_refused() {
    let mut locale = Locale::new(Language::English);
    let hundred = "{ \"x\" }".repeat(100);
    let source = format!("b = {}\na = {{ {{ b }} }}\n", hundred);
    assert_eq!(locale.load(Language::English, source), Err(LoadError::InvalidResource));
    let source = format!("b = {}\na = {{ \"y\" ->\n   *[y] {{ b }}\n}}\n", hundred);
    assert_eq!(locale.load(Language::English, source), Err(LoadError::InvalidResource));
    assert_eq!(locale.get_message("a"), "Unknown message key: a");
}

#[test]
fn a_message_past_the_limit_of_placeables_is_unknown() {
    let mut locale = Locale::new(Language::English);
    let hundred = "{ \"x\" }".repeat(100);
    let source = format!(
        "b = {}\na = {{ b }}\nc = {}{{ \"x\" }}\nd = {{ $n ->\n   *[other] {{ b }}\n}}\n-t = {{ b }}\ne = {{ -t }}\n",
        hundred, hundred
    );
    assert_eq!(locale.load(Language::English, source), Ok(()));
    assert_eq!(locale.get_message("b"), "x".repeat(100));
    assert_eq!(locale.get_message("a"), "Unknown message key: a");
    assert_eq!(locale.get_message("c"), "Unknown message key: c");
    assert_eq!(locale.get_message_args("d", &[("n", "1")]), "Unknown message key: d");
    assert_eq!(locale.get_message("e"), "Unknown message key: e");
}

#[test]
fn tame_sources_are_told_from_others() {
    assert!(Locale::is_tame(""));
    assert!(Locale::is_tame("a = b\n"));
    assert!(Locale::is_tame("a = \u{4e2d}\u{6587} 3.14 \\u00e9 \\U01F602"));
    assert!(Locale::is_tame("a = \\u"));
    assert!(Locale::is_tame("a = \\u12"));
    assert!(Locale::is_tame("a = \\u1234\u{e9}"));
    assert!(!Locale::is_tame("a = \\u123\u{e9}"));
    assert!(!Locale::is_tame("a = \\u\u{e9}"));
    assert!(Locale::is_tame("a = \\U012345\u{e9}"));
    assert!(!Locale::is_tame("a = \\U01234\u{e9}"));
    assert!(Locale::is_tame("a = \\x\u{e9}"));
    assert!(Locale::is_tame("1.1234567890123456789"));
    assert!(Locale::is_tame("1.1234567890123456789 0"));
    assert!(!Locale::is_tame("1.12345678901234567890"));
    assert!(!Locale::is_tame(".00000000000000000000000000"));
    assert!(Locale::is_tame("12345678901234567890123.5"));
    assert!(Locale::is_tame("a = { b }"));
    assert!(Locale::is_tame("a = { \"x\" }{ 1 }{ -1.5 }{ $n }"));
    assert!(Locale::is_tame("a = { $n ->\n *[other] x\n}"));
    assert!(Locale::is_tame("a = { -t ->"));
    assert!(Locale::is_tame("a = { \"x\" }   -> y"));
    assert!(Locale::is_tame("a = { \"x\n\" ->"));
    assert!(Locale::is_tame("a = {"));
    assert!(Locale::is_tame("a = { 1 -"));
    assert!(!Locale::is_tame("a = { { b } }"));
    assert!(!Locale::is_tame("a = {{ b }}"));
    assert!(!Locale::is_tame("a = {\n  \r\n { b } }"));
    assert!(!Locale::is_tame("a = { 1 ->"));
    assert!(!Locale::is_tame("a = {1->"));
    assert!(!Locale::is_tame("a = { -1.5   \n ->"));
    assert!(!Locale::is_tame("a = { \"x\" ->"));
    assert!(!Locale::is_tame("a = { \"x\\\"y\"->"));
    assert!(!Locale::is_tame("a = { \"x\"\n\n   ->"));
}
