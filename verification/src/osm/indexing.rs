use vstd::prelude::*;
use std::collections::HashMap;
use crate::country::Country;

verus! {

broadcast use vstd::std_specs::hash::group_hash_axioms;

/// An administrative boundary relation collected by an earlier pass.
pub struct AdminRelationData {
    pub name: String,
    pub admin_level: i32,
    pub ref_code: String,
    pub way_ids: Vec<i64>,
    pub country: Country,
}

/// A named street way collected by an earlier pass.
pub struct StreetWayData {
    pub name: String,
    pub node_ids: Vec<i64>,
}

/// An administrative boundary to index: its relation's attributes and the
/// coordinates of its boundary nodes (from which its centroid and bounding
/// box are computed).
pub struct AdminBoundaryNodes<C> {
    pub name: String,
    pub admin_level: i32,
    pub ref_code: Option<String>,
    pub country: Country,
    pub boundary_nodes: Vec<C>,
}

/// A street to index: its name and the coordinates of its nodes.
pub struct StreetNodes<C> {
    pub name: String,
    pub coordinates: Vec<C>,
}

/// The abstract content of an administrative boundary to index.
pub type AdminBoundaryView<C> = (Seq<char>, i32, Option<Seq<char>>, (Seq<char>, Seq<char>), Seq<C>);

impl<C> View for AdminBoundaryNodes<C> {
    type V = AdminBoundaryView<C>;

    open spec fn view(&self) -> AdminBoundaryView<C> {
        (
            self.name@,
            self.admin_level,
            match self.ref_code {
                Some(r) => Some(r@),
                None => None,
            },
            self.country@,
            self.boundary_nodes@,
        )
    }
}

impl<C> View for StreetNodes<C> {
    type V = (Seq<char>, Seq<C>);

    open spec fn view(&self) -> (Seq<char>, Seq<C>) {
        (self.name@, self.coordinates@)
    }
}

/// The coordinates that `coords` holds for the nodes `node_ids`, in order;
/// nodes without coordinates are left out.
pub open spec fn known_coords<C>(node_ids: Seq<i64>, coords: Map<i64, C>) -> Seq<C>
    decreases node_ids.len(),
{
    if node_ids.len() == 0 {
        Seq::empty()
    } else {
        let prev = known_coords(node_ids.drop_last(), coords);
        let n = node_ids.last();
        if coords.contains_key(n) {
            prev.push(coords[n])
        } else {
            prev
        }
    }
}

/// The known coordinates of the nodes of the ways `way_ids`, way after way;
/// ways without a node list contribute nothing.
pub open spec fn ways_coords<C>(
    way_ids: Seq<i64>,
    way_nodes: Map<i64, Vec<i64>>,
    coords: Map<i64, C>,
) -> Seq<C>
    decreases way_ids.len(),
{
    if way_ids.len() == 0 {
        Seq::empty()
    } else {
        let w = way_ids.last();
        ways_coords(way_ids.drop_last(), way_nodes, coords) + if way_nodes.contains_key(w) {
            known_coords(way_nodes[w]@, coords)
        } else {
            Seq::empty()
        }
    }
}

/// The boundary entry made from a relation and its boundary coordinates.
pub open spec fn admin_boundary_of<C>(rel: AdminRelationData, nodes: Seq<C>) -> AdminBoundaryView<C> {
    (rel.name@, rel.admin_level, Some(rel.ref_code@), rel.country@, nodes)
}

/// The boundary entries for `relations`, in order: one for each relation
/// with at least one known boundary coordinate.
pub open spec fn admin_boundaries<C>(
    relations: Seq<AdminRelationData>,
    way_nodes: Map<i64, Vec<i64>>,
    coords: Map<i64, C>,
) -> Seq<AdminBoundaryView<C>>
    decreases relations.len(),
{
    if relations.len() == 0 {
        Seq::empty()
    } else {
        let prev = admin_boundaries(relations.drop_last(), way_nodes, coords);
        let rel = relations.last();
        let nodes = ways_coords(rel.way_ids@, way_nodes, coords);
        if nodes.len() == 0 {
            prev
        } else {
            prev.push(admin_boundary_of(rel, nodes))
        }
    }
}

/// The street entries for `streets`, in order: one for each street with at
/// least two known node coordinates.
pub open spec fn street_entries<C>(streets: Seq<StreetWayData>, coords: Map<i64, C>) -> Seq<
    (Seq<char>, Seq<C>),
>
    decreases streets.len(),
{
    if streets.len() == 0 {
        Seq::empty()
    } else {
        let prev = street_entries(streets.drop_last(), coords);
        let s = streets.last();
        let nodes = known_coords(s.node_ids@, coords);
        if nodes.len() >= 2 {
            prev.push((s.name@, nodes))
        } else {
            prev
        }
    }
}

/// How many of `streets` have fewer than two known node coordinates.
pub open spec fn skipped_streets<C>(streets: Seq<StreetWayData>, coords: Map<i64, C>) -> nat
    decreases streets.len(),
{
    if streets.len() == 0 {
        0
    } else {
        let prev = skipped_streets(streets.drop_last(), coords);
        if known_coords(streets.last().node_ids@, coords).len() >= 2 {
            prev
        } else {
            prev + 1
        }
    }
}

/// The views of a sequence of entries.
pub open spec fn views<T: View>(s: Seq<T>) -> Seq<T::V> {
    s.map_values(|t: T| t@)
}

/// The coordinates that `nodes_coords` holds for `node_ids`, in order.
pub fn known_node_coords<C: Copy>(node_ids: &Vec<i64>, nodes_coords: &HashMap<i64, C>) -> (r: Vec<
    C,
>)
    ensures
        r@ == known_coords(node_ids@, nodes_coords@),
{
    let mut out: Vec<C> = Vec::new();
    for i in 0..node_ids.len()
        invariant
            out@ == known_coords(node_ids@.take(i as int), nodes_coords@),
    {
        let nid = node_ids[i];
        proof {
            assert(node_ids@.take(i + 1).drop_last() =~= node_ids@.take(i as int));
        }
        match nodes_coords.get(&nid) {
            Some(c) => out.push(*c),
            None => {},
        }
    }
    proof {
        assert(node_ids@.take(node_ids@.len() as int) =~= node_ids@);
    }
    out
}

/// The known coordinates of the nodes of the ways `way_ids`, way after way.
pub fn way_node_coords<C: Copy>(
    way_ids: &Vec<i64>,
    way_node_ids: &HashMap<i64, Vec<i64>>,
    nodes_coords: &HashMap<i64, C>,
) -> (r: Vec<C>)
    ensures
        r@ == ways_coords(way_ids@, way_node_ids@, nodes_coords@),
{
    let mut out: Vec<C> = Vec::new();
    for i in 0..way_ids.len()
        invariant
            out@ == ways_coords(way_ids@.take(i as int), way_node_ids@, nodes_coords@),
    {
        let wid = way_ids[i];
        proof {
            assert(way_ids@.take(i + 1).drop_last() =~= way_ids@.take(i as int));
        }
        match way_node_ids.get(&wid) {
            Some(nids) => {
                let mut found = known_node_coords(nids, nodes_coords);
                out.append(&mut found);
            },
            None => {
                proof {
                    assert(out@ =~= out@ + Seq::<C>::empty());
                }
            },
        }
    }
    proof {
        assert(way_ids@.take(way_ids@.len() as int) =~= way_ids@);
    }
    out
}

/// Adds to `index`, in order, one boundary for each relation in
/// `admin_relations` whose ways have at least one node with known
/// coordinates; the boundary's nodes are those coordinates, way after way.
pub fn build_admin_boundary_index<C: Copy>(
    admin_relations: &[AdminRelationData],
    admin_way_node_ids: &HashMap<i64, Vec<i64>>,
    nodes_coords: &HashMap<i64, C>,
    index: &mut Vec<AdminBoundaryNodes<C>>,
)
    ensures
        views(final(index)@) == views(old(index)@) + admin_boundaries(
            admin_relations@,
            admin_way_node_ids@,
            nodes_coords@,
        ),
{
    let ghost start = views(index@);
    for i in 0..admin_relations.len()
        invariant
            views(index@) == start + admin_boundaries(
                admin_relations@.take(i as int),
                admin_way_node_ids@,
                nodes_coords@,
            ),
    {
        let relation = &admin_relations[i];
        proof {
            assert(admin_relations@.take(i + 1).drop_last() =~= admin_relations@.take(i as int));
            assert(admin_relations@.take(i + 1).last() == *relation);
        }
        let all_node_coords = way_node_coords(&relation.way_ids, admin_way_node_ids, nodes_coords);
        if all_node_coords.len() > 0 {
            let boundary = AdminBoundaryNodes {
                name: relation.name.clone(),
                admin_level: relation.admin_level,
                ref_code: Some(relation.ref_code.clone()),
                country: relation.country.duplicate(),
                boundary_nodes: all_node_coords,
            };
            let ghost before = index@;
            index.push(boundary);
            proof {
                assert(views(index@) =~= views(before).push(boundary@));
            }
        }
    }
    proof {
        assert(admin_relations@.take(admin_relations@.len() as int) =~= admin_relations@);
    }
}

/// Adds to `index`, in order, each street of `street_ways` with at least two
/// nodes of known coordinates, with those coordinates; returns how many
/// streets were skipped for having fewer.
pub fn build_street_index<C: Copy>(
    street_ways: &[StreetWayData],
    nodes_coords: &HashMap<i64, C>,
    index: &mut Vec<StreetNodes<C>>,
) -> (skipped: usize)
    ensures
        views(final(index)@) == views(old(index)@) + street_entries(street_ways@, nodes_coords@),
        skipped == skipped_streets(street_ways@, nodes_coords@),
{
    let ghost start = views(index@);
    let mut skipped: usize = 0;
    for i in 0..street_ways.len()
        invariant
            views(index@) == start + street_entries(street_ways@.take(i as int), nodes_coords@),
            skipped == skipped_streets(street_ways@.take(i as int), nodes_coords@),
            skipped <= i,
    {
        let street = &street_ways[i];
        proof {
            assert(street_ways@.take(i + 1).drop_last() =~= street_ways@.take(i as int));
            assert(street_ways@.take(i + 1).last() == *street);
        }
        let coordinates = known_node_coords(&street.node_ids, nodes_coords);
        if coordinates.len() >= 2 {
            let entry = StreetNodes { name: street.name.clone(), coordinates };
            let ghost before = index@;
            index.push(entry);
            proof {
                assert(views(index@) =~= views(before).push(entry@));
            }
        } else {
            skipped += 1;
        }
    }
    proof {
        assert(street_ways@.take(street_ways@.len() as int) =~= street_ways@);
    }
    skipped
}

/// Every street is either indexed or counted as skipped, and each indexed
/// street has at least two coordinates.
pub proof fn lemma_streets_indexed_or_skipped<C>(streets: Seq<StreetWayData>, coords: Map<i64, C>)
    ensures
        street_entries(streets, coords).len() + skipped_streets(streets, coords) == streets.len(),
        forall|k: int|
            0 <= k < street_entries(streets, coords).len() ==> (#[trigger] street_entries(
                streets,
                coords,
            )[k]).1.len() >= 2,
    decreases streets.len(),
{
    if streets.len() > 0 {
        lemma_streets_indexed_or_skipped(streets.drop_last(), coords);
    }
}

/// Each indexed administrative boundary has at least one boundary node, and
/// there are at most as many boundaries as relations.
pub proof fn lemma_admin_boundaries_have_nodes<C>(
    relations: Seq<AdminRelationData>,
    way_nodes: Map<i64, Vec<i64>>,
    coords: Map<i64, C>,
)
    ensures
        admin_boundaries(relations, way_nodes, coords).len() <= relations.len(),
        forall|k: int|
            0 <= k < admin_boundaries(relations, way_nodes, coords).len() ==> (
            #[trigger] admin_boundaries(relations, way_nodes, coords)[k]).4.len() > 0,
    decreases relations.len(),
{
    if relations.len() > 0 {
        lemma_admin_boundaries_have_nodes(relations.drop_last(), way_nodes, coords);
    }
}

/// The known coordinates of one node: its coordinate if the store has one,
/// else none.
pub proof fn lemma_known_coords_single<C>(n: i64, coords: Map<i64, C>)
    ensures
        known_coords(seq![n], coords) == if coords.contains_key(n) {
            seq![coords[n]]
        } else {
            Seq::<C>::empty()
        },
{
    assert(seq![n].drop_last() =~= Seq::<i64>::empty());
    assert(seq![n].last() == n);
    assert(known_coords(Seq::<i64>::empty(), coords) =~= Seq::<C>::empty());
    assert(Seq::<C>::empty().push(coords[n]) =~= seq![coords[n]]);
}

/// The known coordinates of two node lists one after the other are those of
/// the first list followed by those of the second: every known node is
/// kept, in order.
pub proof fn lemma_known_coords_concat<C>(a: Seq<i64>, b: Seq<i64>, coords: Map<i64, C>)
    ensures
        known_coords(a + b, coords) == known_coords(a, coords) + known_coords(b, coords),
    decreases b.len(),
{
    if b.len() == 0 {
        assert(a + b =~= a);
        assert(known_coords(a, coords) + Seq::<C>::empty() =~= known_coords(a, coords));
    } else {
        lemma_known_coords_concat(a, b.drop_last(), coords);
        assert((a + b).drop_last() =~= a + b.drop_last());
        assert((a + b).last() == b.last());
        assert(known_coords(a + b, coords) =~= known_coords(a, coords) + known_coords(b, coords));
    }
}

/// The coordinates of one way are the known coordinates of its node list,
/// or none when the way has no node list.
pub proof fn lemma_ways_coords_single<C>(w: i64, way_nodes: Map<i64, Vec<i64>>, coords: Map<i64, C>)
    ensures
        ways_coords(seq![w], way_nodes, coords) == if way_nodes.contains_key(w) {
            known_coords(way_nodes[w]@, coords)
        } else {
            Seq::<C>::empty()
        },
{
    assert(seq![w].drop_last() =~= Seq::<i64>::empty());
    assert(seq![w].last() == w);
    assert(ways_coords(Seq::<i64>::empty(), way_nodes, coords) =~= Seq::<C>::empty());
    assert(Seq::<C>::empty() + known_coords(way_nodes[w]@, coords) =~= known_coords(
        way_nodes[w]@,
        coords,
    ));
    assert(Seq::<C>::empty() + Seq::<C>::empty() =~= Seq::<C>::empty());
}

/// The coordinates of two way lists one after the other are those of the
/// first list followed by those of the second: every way contributes, way
/// after way.
pub proof fn lemma_ways_coords_concat<C>(
    a: Seq<i64>,
    b: Seq<i64>,
    way_nodes: Map<i64, Vec<i64>>,
    coords: Map<i64, C>,
)
    ensures
        ways_coords(a + b, way_nodes, coords) == ways_coords(a, way_nodes, coords) + ways_coords(
            b,
            way_nodes,
            coords,
        ),
    decreases b.len(),
{
    if b.len() == 0 {
        assert(a + b =~= a);
        assert(ways_coords(a, way_nodes, coords) + Seq::<C>::empty() =~= ways_coords(
            a,
            way_nodes,
            coords,
        ));
    } else {
        lemma_ways_coords_concat(a, b.drop_last(), way_nodes, coords);
        assert((a + b).drop_last() =~= a + b.drop_last());
        assert((a + b).last() == b.last());
        assert(ways_coords(a + b, way_nodes, coords) =~= ways_coords(a, way_nodes, coords)
            + ways_coords(b, way_nodes, coords));
    }
}

/// One relation gives one boundary, with its name, level, reference code,
/// country and the coordinates of all its ways, when those coordinates are
/// not empty, and no boundary otherwise.
pub proof fn lemma_admin_boundaries_single<C>(
    rel: AdminRelationData,
    way_nodes: Map<i64, Vec<i64>>,
    coords: Map<i64, C>,
)
    ensures
        admin_boundaries(seq![rel], way_nodes, coords) == if ways_coords(
            rel.way_ids@,
            way_nodes,
            coords,
        ).len() == 0 {
            Seq::<AdminBoundaryView<C>>::empty()
        } else {
            seq![
                (
                    rel.name@,
                    rel.admin_level,
                    Some(rel.ref_code@),
                    rel.country@,
                    ways_coords(rel.way_ids@, way_nodes, coords),
                ),
            ]
        },
{
    assert(seq![rel].drop_last() =~= Seq::<AdminRelationData>::empty());
    assert(admin_boundaries(Seq::<AdminRelationData>::empty(), way_nodes, coords)
        =~= Seq::<AdminBoundaryView<C>>::empty());
    assert(seq![rel].last() == rel);
    assert(Seq::<AdminBoundaryView<C>>::empty().push(
        admin_boundary_of(rel, ways_coords(rel.way_ids@, way_nodes, coords)),
    ) =~= seq![
        (
            rel.name@,
            rel.admin_level,
            Some(rel.ref_code@),
            rel.country@,
            ways_coords(rel.way_ids@, way_nodes, coords),
        ),
    ]);
}

/// The boundaries of two relation lists one after the other are those of
/// the first list followed by those of the second.
pub proof fn lemma_admin_boundaries_concat<C>(
    a: Seq<AdminRelationData>,
    b: Seq<AdminRelationData>,
    way_nodes: Map<i64, Vec<i64>>,
    coords: Map<i64, C>,
)
    ensures
        admin_boundaries(a + b, way_nodes, coords) == admin_boundaries(a, way_nodes, coords)
            + admin_boundaries(b, way_nodes, coords),
    decreases b.len(),
{
    if b.len() == 0 {
        assert(a + b =~= a);
        assert(admin_boundaries(a, way_nodes, coords) + Seq::<AdminBoundaryView<C>>::empty()
            =~= admin_boundaries(a, way_nodes, coords));
    } else {
        lemma_admin_boundaries_concat(a, b.drop_last(), way_nodes, coords);
        assert((a + b).drop_last() =~= a + b.drop_last());
        assert((a + b).last() == b.last());
        assert(admin_boundaries(a + b, way_nodes, coords) =~= admin_boundaries(
            a,
            way_nodes,
            coords,
        ) + admin_boundaries(b, way_nodes, coords));
    }
}

/// One street is indexed, with all the known coordinates of its nodes in
/// order, when there are at least two of them, and is counted as skipped
/// otherwise.
pub proof fn lemma_street_single<C>(street: StreetWayData, coords: Map<i64, C>)
    ensures
        street_entries(seq![street], coords) == if known_coords(street.node_ids@, coords).len()
            >= 2 {
            seq![(street.name@, known_coords(street.node_ids@, coords))]
        } else {
            Seq::<(Seq<char>, Seq<C>)>::empty()
        },
        skipped_streets(seq![street], coords) == if known_coords(street.node_ids@, coords).len()
            >= 2 {
            0nat
        } else {
            1nat
        },
{
    assert(seq![street].drop_last() =~= Seq::<StreetWayData>::empty());
    assert(street_entries(Seq::<StreetWayData>::empty(), coords) =~= Seq::<
        (Seq<char>, Seq<C>),
    >::empty());
    assert(skipped_streets(Seq::<StreetWayData>::empty(), coords) == 0);
    assert(seq![street].last() == street);
    assert(Seq::<(Seq<char>, Seq<C>)>::empty().push(
        (street.name@, known_coords(street.node_ids@, coords)),
    ) =~= seq![(street.name@, known_coords(street.node_ids@, coords))]);
}

/// The entries and the skipped count of two street lists one after the
/// other add up from those of each list.
pub proof fn lemma_streets_concat<C>(a: Seq<StreetWayData>, b: Seq<StreetWayData>, coords: Map<i64, C>)
    ensures
        street_entries(a + b, coords) == street_entries(a, coords) + street_entries(b, coords),
        skipped_streets(a + b, coords) == skipped_streets(a, coords) + skipped_streets(b, coords),
    decreases b.len(),
{
    if b.len() == 0 {
        assert(a + b =~= a);
        assert(street_entries(a, coords) + Seq::<(Seq<char>, Seq<C>)>::empty() =~= street_entries(
            a,
            coords,
        ));
    } else {
        lemma_streets_concat(a, b.drop_last(), coords);
        assert((a + b).drop_last() =~= a + b.drop_last());
        assert((a + b).last() == b.last());
        assert(street_entries(a + b, coords) =~= street_entries(a, coords) + street_entries(
            b,
            coords,
        ));
    }
}

} // verus!
