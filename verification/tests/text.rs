use osm_nominatim::text::{join_osm_values, OSM_TAG_SEPARATOR};

#[test]
fn test_join_osm_values() {
    let vals = vec!["bus".to_string(), "tram".to_string()];
    assert_eq!(join_osm_values(&vals), Some("bus;tram".to_string()));
}

#[test]
fn test_join_osm_values_filters_empty() {
    let vals = vec!["bus".to_string(), "".to_string(), "tram".to_string()];
    assert_eq!(join_osm_values(&vals), Some("bus;tram".to_string()));
}

#[test]
fn test_join_osm_values_all_empty() {
    let vals = vec!["".to_string(), "".to_string()];
    assert_eq!(join_osm_values(&vals), None);
}

#[test]
fn test_join_osm_values_empty_vec() {
    let vals: Vec<String> = vec![];
    assert_eq!(join_osm_values(&vals), None);
}

#[test]
fn test_join_osm_values_single() {
    let vals = vec!["bus".to_string()];
    assert_eq!(join_osm_values(&vals), Some("bus".to_string()));
}

#[test]
fn join_skips_leading_and_trailing_empty_values() {
    let vals = vec!["".to_string(), "ferry".to_string(), "".to_string()];
    assert_eq!(join_osm_values(&vals), Some("ferry".to_string()));
}

#[test]
fn joined_values_split_back() {
    let vals = vec!["bus".to_string(), "".to_string(), "tram".to_string(), "train".to_string()];
    let joined = join_osm_values(&vals).unwrap();
    assert!(!joined.is_empty());
    let parts: Vec<&str> = joined.split(OSM_TAG_SEPARATOR).collect();
    assert_eq!(parts, vec!["bus", "tram", "train"]);
}
