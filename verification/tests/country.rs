use osm_nominatim::country::{country_from_region_ids, Country};

#[test]
fn test_country_no() {
    let c = Country::no();
    assert_eq!(c.name, "no");
    assert_eq!(c.three_letter_code, "NOR");
}

#[test]
fn test_parse_norway() {
    let c = Country::parse(Some("no")).unwrap();
    assert_eq!(c.name, "no");
    assert_eq!(c.three_letter_code, "NOR");
}

#[test]
fn test_parse_uppercase() {
    let c = Country::parse(Some("NO")).unwrap();
    assert_eq!(c.name, "no");
    assert_eq!(c.three_letter_code, "NOR");
}

#[test]
fn test_parse_sweden() {
    let c = Country::parse(Some("se")).unwrap();
    assert_eq!(c.name, "se");
    assert_eq!(c.three_letter_code, "SWE");
}

#[test]
fn test_parse_none() {
    assert!(Country::parse(None).is_none());
}

#[test]
fn test_parse_invalid() {
    assert!(Country::parse(Some("xx")).is_none());
}

#[test]
fn test_parse_empty() {
    assert!(Country::parse(Some("")).is_none());
}

#[test]
fn parse_mixed_case_croatia() {
    let c = Country::parse(Some("hR")).unwrap();
    assert_eq!(c.name, "hr");
    assert_eq!(c.three_letter_code, "HRV");
}

#[test]
fn parse_rejects_wrong_lengths_and_non_ascii() {
    assert!(Country::parse(Some("n")).is_none());
    assert!(Country::parse(Some("nor")).is_none());
    assert!(Country::parse(Some("nø")).is_none());
}

#[test]
fn parse_rejects_unassigned_code() {
    assert!(Country::parse(Some("qb")).is_none());
}

#[test]
fn parse_is_case_insensitive() {
    assert_eq!(Country::parse(Some("De")), Country::parse(Some("dE")));
    assert_eq!(Country::parse(Some("de")).unwrap().three_letter_code, "DEU");
}

#[test]
fn parsed_name_parses_back_to_same_country() {
    let first = Country::parse(Some("FI")).unwrap();
    let second = Country::parse(Some(first.name.as_str())).unwrap();
    assert_eq!(first, second);
}

#[test]
fn no_equals_parsed_no() {
    assert_eq!(Country::parse(Some("no")).unwrap(), Country::no());
}

#[test]
fn duplicate_keeps_fields() {
    let c = Country::parse(Some("se")).unwrap();
    let d = c.duplicate();
    assert_eq!(c, d);
}

#[test]
fn region_ids_pick_first_two_letter_id() {
    let ids = vec!["US-TX", "US"];
    let c = country_from_region_ids(&ids).unwrap();
    assert_eq!(c.name, "us");
    assert_eq!(c.three_letter_code, "USA");
}

#[test]
fn region_ids_without_country_give_none() {
    let ids = vec!["US-TX", "XYZ"];
    assert!(country_from_region_ids(&ids).is_none());
    let empty: Vec<&str> = vec![];
    assert!(country_from_region_ids(&empty).is_none());
}

#[test]
fn region_ids_first_two_letter_id_decides_even_if_unknown() {
    let ids = vec!["XX", "NO"];
    assert!(country_from_region_ids(&ids).is_none());
}

#[test]
fn three_letter_codes_are_three_uppercase_letters() {
    for code in ["no", "se", "DK", "fi", "Us"] {
        let c = Country::parse(Some(code)).unwrap();
        assert_eq!(c.name.len(), 2);
        assert_eq!(c.three_letter_code.len(), 3);
        assert!(c.three_letter_code.chars().all(|ch| ch.is_ascii_uppercase()));
        assert_eq!(Country::parse(Some(&code.to_ascii_uppercase())), Some(c.clone()));
        assert_eq!(Country::parse(Some(&code.to_ascii_lowercase())), Some(c.clone()));
        assert_eq!(Country::parse(Some(&c.name)), Some(c.clone()));
    }
}
