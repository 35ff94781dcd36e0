use std::collections::{HashMap, HashSet};

use osm_nominatim::country::Country;
use osm_nominatim::osm::indexing::{
    build_admin_boundary_index, build_street_index, known_node_coords, way_node_coords,
    AdminBoundaryNodes, AdminRelationData, StreetNodes, StreetWayData,
};
use osm_nominatim::osm::pass4::{
    clone_tags, collect_poi_node, collect_poi_relation, collect_way, compute_way_centroids,
    convert_poi_nodes, convert_poi_relations, convert_poi_ways, is_poi_entity, MemberKind,
    NodePoiData, RelationPassData, WayPassData,
};

fn tags(pairs: &[(&str, &str)]) -> Vec<(String, String)> {
    pairs.iter().map(|(k, v)| (k.to_string(), v.to_string())).collect()
}

fn coords() -> HashMap<i64, (i32, i32)> {
    let mut m = HashMap::new();
    m.insert(1, (10, 10));
    m.insert(2, (20, 20));
    m.insert(3, (30, 30));
    m.insert(5, (50, 50));
    m
}

fn amenity_filter(k: &str, v: &str) -> bool {
    k == "amenity" && v == "cafe"
}

#[test]
fn known_coords_skip_missing_nodes() {
    let c = coords();
    assert_eq!(known_node_coords(&vec![3, 4, 1, 9], &c), vec![(30, 30), (10, 10)]);
    assert_eq!(known_node_coords(&vec![], &c), Vec::<(i32, i32)>::new());
}

#[test]
fn way_coords_follow_way_order() {
    let c = coords();
    let mut ways = HashMap::new();
    ways.insert(100, vec![1, 2]);
    ways.insert(101, vec![4, 5]);
    assert_eq!(way_node_coords(&vec![101, 999, 100], &ways, &c), vec![(50, 50), (10, 10), (20, 20)]);
}

#[test]
fn admin_index_skips_relations_without_coordinates() {
    let c = coords();
    let mut ways = HashMap::new();
    ways.insert(100, vec![1, 2]);
    ways.insert(200, vec![7, 8]);
    let relations = vec![
        AdminRelationData {
            name: "Oslo".to_string(),
            admin_level: 4,
            ref_code: "03".to_string(),
            way_ids: vec![100],
            country: Country::no(),
        },
        AdminRelationData {
            name: "Nowhere".to_string(),
            admin_level: 8,
            ref_code: "99".to_string(),
            way_ids: vec![200, 300],
            country: Country::no(),
        },
    ];
    let mut index: Vec<AdminBoundaryNodes<(i32, i32)>> = Vec::new();
    build_admin_boundary_index(&relations, &ways, &c, &mut index);
    assert_eq!(index.len(), 1);
    assert_eq!(index[0].name, "Oslo");
    assert_eq!(index[0].admin_level, 4);
    assert_eq!(index[0].ref_code, Some("03".to_string()));
    assert_eq!(index[0].country, Country::no());
    assert_eq!(index[0].boundary_nodes, vec![(10, 10), (20, 20)]);
}

#[test]
fn street_index_needs_two_coordinates() {
    let c = coords();
    let streets = vec![
        StreetWayData { name: "Karl Johans gate".to_string(), node_ids: vec![1, 4, 2] },
        StreetWayData { name: "Stub".to_string(), node_ids: vec![3, 4] },
        StreetWayData { name: "Ghost".to_string(), node_ids: vec![] },
    ];
    let mut index: Vec<StreetNodes<(i32, i32)>> = Vec::new();
    let skipped = build_street_index(&streets, &c, &mut index);
    assert_eq!(skipped, 2);
    assert_eq!(index.len(), 1);
    assert_eq!(index[0].name, "Karl Johans gate");
    assert_eq!(index[0].coordinates, vec![(10, 10), (20, 20)]);
    assert_eq!(index.len() + skipped, streets.len());
}

#[test]
fn poi_needs_name_and_accepted_tag() {
    assert!(is_poi_entity(&tags(&[("name", "Kaffebrenneriet"), ("amenity", "cafe")]), &amenity_filter));
    assert!(!is_poi_entity(&tags(&[("amenity", "cafe")]), &amenity_filter));
    assert!(!is_poi_entity(&tags(&[("name", "Bank"), ("amenity", "bank")]), &amenity_filter));
    assert!(!is_poi_entity(&tags(&[]), &amenity_filter));
}

#[test]
fn poi_uses_last_value_of_repeated_key() {
    assert!(!is_poi_entity(
        &tags(&[("name", "X"), ("amenity", "cafe"), ("amenity", "bank")]),
        &amenity_filter
    ));
    assert!(is_poi_entity(
        &tags(&[("name", "X"), ("amenity", "bank"), ("amenity", "cafe")]),
        &amenity_filter
    ));
}

#[test]
fn collect_node_records_only_pois() {
    let mut data: NodePoiData<(i32, i32)> =
        NodePoiData { ids: Vec::new(), coords: HashMap::new(), tags: HashMap::new() };
    collect_poi_node(7, (1, 2), tags(&[("name", "Cafe"), ("amenity", "cafe")]), &amenity_filter, &mut data);
    collect_poi_node(8, (3, 4), tags(&[("amenity", "cafe")]), &amenity_filter, &mut data);
    assert_eq!(data.ids, vec![7]);
    assert_eq!(data.coords.get(&7), Some(&(1, 2)));
    assert!(data.tags.contains_key(&7));
    assert!(!data.coords.contains_key(&8));

    let converted = convert_poi_nodes(&data);
    assert_eq!(converted.len(), 1);
    assert_eq!(converted[0].id, 7);
    assert_eq!(converted[0].coord, (1, 2));
    assert_eq!(converted[0].tags, tags(&[("name", "Cafe"), ("amenity", "cafe")]));
}

#[test]
fn convert_nodes_needs_coordinate_and_tags() {
    let mut data: NodePoiData<(i32, i32)> =
        NodePoiData { ids: vec![1, 2, 3], coords: HashMap::new(), tags: HashMap::new() };
    data.coords.insert(1, (1, 1));
    data.coords.insert(2, (2, 2));
    data.tags.insert(2, tags(&[("name", "B")]));
    data.tags.insert(3, tags(&[("name", "C")]));
    let converted = convert_poi_nodes(&data);
    assert_eq!(converted.len(), 1);
    assert_eq!(converted[0].id, 2);
}

#[test]
fn collect_way_keeps_needed_ways_only() {
    let mut needed = HashSet::new();
    needed.insert(10);
    let mut data = WayPassData { ids: Vec::new(), way_node_ids: HashMap::new(), way_tags: HashMap::new() };
    collect_way(10, vec![1, 2, 3], tags(&[("highway", "residential")]), &needed, &mut data);
    collect_way(11, vec![4], tags(&[]), &needed, &mut data);
    assert_eq!(data.ids, vec![10]);
    assert_eq!(data.way_node_ids.get(&10), Some(&vec![1, 2, 3]));
    assert!(!data.way_tags.contains_key(&11));
}

#[test]
fn centroid_inputs_per_way_with_nodes() {
    let c = coords();
    let mut data = WayPassData { ids: vec![10, 11, 12], way_node_ids: HashMap::new(), way_tags: HashMap::new() };
    data.way_node_ids.insert(10, vec![1, 2, 6]);
    data.way_node_ids.insert(12, vec![6]);
    let inputs = compute_way_centroids(&data, &c);
    assert_eq!(inputs, vec![(10, vec![(10, 10), (20, 20)]), (12, vec![])]);
}

#[test]
fn convert_ways_needs_poi_id_and_tags() {
    let mut data = WayPassData { ids: vec![10, 11, 12], way_node_ids: HashMap::new(), way_tags: HashMap::new() };
    data.way_tags.insert(10, tags(&[("name", "Park")]));
    data.way_tags.insert(11, tags(&[("name", "Lot")]));
    let mut poi = HashSet::new();
    poi.insert(10);
    poi.insert(12);
    let converted = convert_poi_ways(&data, &poi);
    assert_eq!(converted.len(), 1);
    assert_eq!(converted[0].id, 10);
    assert_eq!(converted[0].tags, tags(&[("name", "Park")]));
}

#[test]
fn collect_relation_splits_members() {
    let mut data = RelationPassData {
        ids: Vec::new(),
        member_node_ids: HashMap::new(),
        member_way_ids: HashMap::new(),
        tags: HashMap::new(),
    };
    let members = vec![
        (MemberKind::Way, 5),
        (MemberKind::Node, 1),
        (MemberKind::Relation, 9),
        (MemberKind::Way, 6),
    ];
    collect_poi_relation(42, &members, tags(&[("name", "Mall"), ("amenity", "cafe")]), &amenity_filter, &mut data);
    collect_poi_relation(43, &members, tags(&[("name", "Other")]), &amenity_filter, &mut data);
    assert_eq!(data.ids, vec![42]);
    assert_eq!(data.member_node_ids.get(&42), Some(&vec![1]));
    assert_eq!(data.member_way_ids.get(&42), Some(&vec![5, 6]));

    let converted = convert_poi_relations(&data);
    assert_eq!(converted.len(), 1);
    assert_eq!(converted[0].id, 42);
    assert_eq!(converted[0].member_nodes, vec![1]);
    assert_eq!(converted[0].member_ways, vec![5, 6]);
}

#[test]
fn convert_relations_defaults_missing_members() {
    let mut data = RelationPassData {
        ids: vec![1, 2],
        member_node_ids: HashMap::new(),
        member_way_ids: HashMap::new(),
        tags: HashMap::new(),
    };
    data.tags.insert(1, tags(&[("name", "R")]));
    data.member_way_ids.insert(1, vec![3]);
    let converted = convert_poi_relations(&data);
    assert_eq!(converted.len(), 1);
    assert_eq!(converted[0].member_nodes, Vec::<i64>::new());
    assert_eq!(converted[0].member_ways, vec![3]);
}

#[test]
fn clone_tags_copies_pairs() {
    let t = tags(&[("a", "1"), ("b", "2")]);
    assert_eq!(clone_tags(&t), t);
}

#[test]
fn collected_ways_all_get_centroid_inputs() {
    let c = coords();
    let mut needed = HashSet::new();
    needed.insert(10);
    needed.insert(11);
    let mut data = WayPassData { ids: Vec::new(), way_node_ids: HashMap::new(), way_tags: HashMap::new() };
    collect_way(10, vec![1, 2], tags(&[("name", "A")]), &needed, &mut data);
    collect_way(11, vec![9], tags(&[("name", "B")]), &needed, &mut data);
    let inputs = compute_way_centroids(&data, &c);
    assert_eq!(inputs.len(), data.ids.len());
    assert_eq!(inputs, vec![(10, vec![(10, 10), (20, 20)]), (11, vec![])]);
}

#[test]
fn collected_maps_are_keyed_by_recorded_ids() {
    let mut nodes: NodePoiData<(i32, i32)> =
        NodePoiData { ids: Vec::new(), coords: HashMap::new(), tags: HashMap::new() };
    collect_poi_node(1, (0, 0), tags(&[("name", "A"), ("amenity", "cafe")]), &amenity_filter, &mut nodes);
    collect_poi_node(2, (0, 0), tags(&[("name", "B")]), &amenity_filter, &mut nodes);
    let ids: HashSet<i64> = nodes.ids.iter().copied().collect();
    assert_eq!(nodes.coords.keys().copied().collect::<HashSet<i64>>(), ids);
    assert_eq!(nodes.tags.keys().copied().collect::<HashSet<i64>>(), ids);

    let mut needed = HashSet::new();
    needed.insert(10);
    let mut ways = WayPassData { ids: Vec::new(), way_node_ids: HashMap::new(), way_tags: HashMap::new() };
    collect_way(10, vec![1], tags(&[]), &needed, &mut ways);
    collect_way(20, vec![2], tags(&[]), &needed, &mut ways);
    let way_ids: HashSet<i64> = ways.ids.iter().copied().collect();
    assert!(way_ids.is_subset(&needed));
    assert_eq!(ways.way_node_ids.keys().copied().collect::<HashSet<i64>>(), way_ids);
    assert_eq!(ways.way_tags.keys().copied().collect::<HashSet<i64>>(), way_ids);
}
