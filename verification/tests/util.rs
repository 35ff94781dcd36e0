use osm_nominatim::util::titleize;

#[test]
fn test_titleize_simple() {
    assert_eq!(titleize("hello world"), "Hello World");
}

#[test]
fn test_titleize_uppercase_input() {
    assert_eq!(titleize("OSLO SENTRUM"), "Oslo Sentrum");
}

#[test]
fn test_titleize_mixed_case() {
    assert_eq!(titleize("sKøYeN"), "Skøyen");
}

#[test]
fn test_titleize_single_word() {
    assert_eq!(titleize("oslo"), "Oslo");
}

#[test]
fn test_titleize_empty() {
    assert_eq!(titleize(""), "");
}

#[test]
fn test_titleize_norwegian_chars() {
    assert_eq!(titleize("ØRSTA SENTRUM"), "Ørsta Sentrum");
    assert_eq!(titleize("ålesund"), "Ålesund");
}

#[test]
fn titleize_collapses_whitespace() {
    assert_eq!(titleize("  nedre \t slottsgate\n"), "Nedre Slottsgate");
    assert_eq!(titleize("   "), "");
}

#[test]
fn titleize_first_letter_may_expand() {
    // 'ß' uppercases to "SS"; later letters take the first char of their lowercase.
    assert_eq!(titleize("ßtraße"), "SStraße");
}

#[test]
fn titleize_keeps_non_letters() {
    assert_eq!(titleize("e6 sør-2"), "E6 Sør-2");
}

#[test]
fn titleize_ignores_ascii_case() {
    let s = "oSLo SentRUM";
    assert_eq!(titleize(&s.to_ascii_lowercase()), titleize(s));
    assert_eq!(titleize(&s.to_ascii_uppercase()), titleize(s));
    assert_eq!(titleize(s), "Oslo Sentrum");
}

#[test]
fn titleize_splits_on_all_ascii_whitespace() {
    assert_eq!(titleize("a\tb\nc\x0Bd\x0Ce\rf g"), "A B C D E F G");
    assert_eq!(titleize("a\u{00A0}b\u{3000}c"), "A B C");
}
