use vstd::prelude::*;
use std::collections::{HashMap, HashSet};
use crate::osm::indexing::{known_coords, known_node_coords, views};

verus! {

broadcast use vstd::std_specs::hash::group_hash_axioms;

/// An OSM tag list: (key, value) pairs in the order the element holds them.
pub type Tags = Vec<(String, String)>;

/// The abstract content of a tag list.
pub type TagsView = Seq<(Seq<char>, Seq<char>)>;

/// Points of interest among the nodes, with their coordinates and tags.
pub struct NodePoiData<C> {
    pub ids: Vec<i64>,
    pub coords: HashMap<i64, C>,
    pub tags: HashMap<i64, Tags>,
}

/// The ways that later passes need, with their node lists and tags.
pub struct WayPassData {
    pub ids: Vec<i64>,
    pub way_node_ids: HashMap<i64, Vec<i64>>,
    pub way_tags: HashMap<i64, Tags>,
}

/// Points of interest among the relations, with their node and way members
/// and tags.
pub struct RelationPassData {
    pub ids: Vec<i64>,
    pub member_node_ids: HashMap<i64, Vec<i64>>,
    pub member_way_ids: HashMap<i64, Vec<i64>>,
    pub tags: HashMap<i64, Tags>,
}

/// The kind of a relation member.
#[derive(Clone, Copy, Debug, PartialEq, Eq)]
pub enum MemberKind {
    Node,
    Way,
    Relation,
}

/// A point-of-interest node to convert into a place.
pub struct PoiNode<C> {
    pub id: i64,
    pub coord: C,
    pub tags: Tags,
}

/// A point-of-interest way to convert into a place.
pub struct PoiWay {
    pub id: i64,
    pub tags: Tags,
}

/// A point-of-interest relation to convert into a place.
pub struct PoiRelation {
    pub id: i64,
    pub member_nodes: Vec<i64>,
    pub member_ways: Vec<i64>,
    pub tags: Tags,
}

/// The content of a tag list.
pub open spec fn tags_view(tags: Seq<(String, String)>) -> TagsView {
    tags.map_values(|t: (String, String)| (t.0@, t.1@))
}

impl<C> View for PoiNode<C> {
    type V = (i64, C, TagsView);

    open spec fn view(&self) -> (i64, C, TagsView) {
        (self.id, self.coord, tags_view(self.tags@))
    }
}

impl View for PoiWay {
    type V = (i64, TagsView);

    open spec fn view(&self) -> (i64, TagsView) {
        (self.id, tags_view(self.tags@))
    }
}

impl View for PoiRelation {
    type V = (i64, Seq<i64>, Seq<i64>, TagsView);

    open spec fn view(&self) -> (i64, Seq<i64>, Seq<i64>, TagsView) {
        (self.id, self.member_nodes@, self.member_ways@, tags_view(self.tags@))
    }
}

/// The key "name".
pub open spec fn name_key() -> Seq<char> {
    seq!['n', 'a', 'm', 'e']
}

/// Whether some tag has the key `key`.
pub open spec fn has_tag_key(tags: TagsView, key: Seq<char>) -> bool {
    exists|i: int| 0 <= i < tags.len() && #[trigger] tags[i].0 == key
}

/// Whether tag `i` is the last with its key (the one a key-to-value map
/// built from the tags keeps).
pub open spec fn last_of_key(tags: TagsView, i: int) -> bool {
    forall|j: int| i < j < tags.len() ==> #[trigger] tags[j].0 != tags[i].0
}

/// Whether the filter answered `b` when called with strings holding `key`
/// and `value`.
pub open spec fn filter_answered<F: Fn(&str, &str) -> bool>(
    f: F,
    key: Seq<char>,
    value: Seq<char>,
    b: bool,
) -> bool {
    exists|k: &str, v: &str| k@ == key && v@ == value && #[trigger] call_ensures(f, (k, v), b)
}

/// The tags make the element a point of interest: it has a name, and the
/// filter accepted one of its (key, last value) pairs.
pub open spec fn poi_accepted<F: Fn(&str, &str) -> bool>(tags: TagsView, f: F) -> bool {
    &&& has_tag_key(tags, name_key())
    &&& exists|i: int|
        0 <= i < tags.len() && last_of_key(tags, i) && #[trigger] filter_answered(
            f,
            tags[i].0,
            tags[i].1,
            true,
        )
}

/// The tags do not make the element a point of interest: it has no name, or
/// the filter refused each of its (key, last value) pairs.
pub open spec fn poi_refused<F: Fn(&str, &str) -> bool>(tags: TagsView, f: F) -> bool {
    ||| !has_tag_key(tags, name_key())
    ||| forall|i: int|
        0 <= i < tags.len() && last_of_key(tags, i) ==> #[trigger] filter_answered(
            f,
            tags[i].0,
            tags[i].1,
            false,
        )
}

/// A copy of a tag list.
pub fn clone_tags(tags: &Tags) -> (r: Tags)
    ensures
        tags_view(r@) == tags_view(tags@),
{
    let mut out: Tags = Vec::new();
    for i in 0..tags.len()
        invariant
            tags_view(out@) == tags_view(tags@.take(i as int)),
    {
        let pair = (tags[i].0.clone(), tags[i].1.clone());
        let ghost before = out@;
        out.push(pair);
        proof {
            assert(tags_view(out@) =~= tags_view(before).push((tags@[i as int].0@, tags@[i as int].1@)));
            assert(tags@.take(i + 1) =~= tags@.take(i as int).push(tags@[i as int]));
            assert(tags_view(tags@.take(i + 1)) =~= tags_view(tags@.take(i as int)).push(
                (tags@[i as int].0@, tags@[i as int].1@),
            ));
        }
    }
    proof {
        assert(tags@.take(tags@.len() as int) =~= tags@);
    }
    out
}

/// Checks whether an entity is a point of interest: it has a `name` tag, and
/// the popularity filter accepts at least one of its tags. As in a
/// key-to-value map built from the tags, only the last value of a repeated
/// key is offered to the filter, and the filter is not consulted for an
/// entity without a name.
pub fn is_poi_entity<F: Fn(&str, &str) -> bool>(tags: &Tags, has_filter: &F) -> (r: bool)
    requires
        forall|k: &str, v: &str| #[trigger] has_filter.requires((k, v)),
    ensures
        r ==> poi_accepted(tags_view(tags@), *has_filter),
        !r ==> poi_refused(tags_view(tags@), *has_filter),
{
    let ghost tv = tags_view(tags@);
    let name = "name".to_string();
    proof {
        reveal_strlit("name");
        assert(name@ =~= name_key());
    }
    let mut has_name = false;
    for i in 0..tags.len()
        invariant
            tv == tags_view(tags@),
            name@ == name_key(),
            has_name ==> has_tag_key(tv, name_key()),
            !has_name ==> forall|j: int| 0 <= j < i ==> tv[j].0 != name_key(),
    {
        if tags[i].0 == name {
            has_name = true;
            proof {
                assert(tv[i as int].0 == name_key());
            }
        }
    }
    if !has_name {
        return false;
    }
    let n = tags.len();
    for i in 0..n
        invariant
            n == tags@.len(),
            tv == tags_view(tags@),
            has_tag_key(tv, name_key()),
            forall|k: &str, v: &str| #[trigger] has_filter.requires((k, v)),
            forall|j: int|
                0 <= j < i && last_of_key(tv, j) ==> #[trigger] filter_answered(
                    *has_filter,
                    tv[j].0,
                    tv[j].1,
                    false,
                ),
    {
        let mut last = true;
        for j in i + 1..n
            invariant
                n == tags@.len(),
                tv == tags_view(tags@),
                i < n,
                last == forall|m: int| i < m < j ==> #[trigger] tv[m].0 != tv[i as int].0,
        {
            proof {
                assert(tv[j as int].0 == tags@[j as int].0@);
                assert(tv[i as int].0 == tags@[i as int].0@);
            }
            if tags[j].0 == tags[i].0 {
                last = false;
            }
        }
        if last {
            let k = tags[i].0.as_str();
            let v = tags[i].1.as_str();
            let accepted = has_filter(k, v);
            proof {
                assert(filter_answered(*has_filter, tv[i as int].0, tv[i as int].1, accepted));
            }
            if accepted {
                return true;
            }
        }
    }
    false
}


/// Records the node `id` with its coordinate and tags when its tags make it
/// a point of interest (see `is_poi_entity`); leaves `node_data` as it was
/// otherwise. Serves plain and dense nodes alike.
pub fn collect_poi_node<C, F: Fn(&str, &str) -> bool>(
    id: i64,
    coord: C,
    tags: Tags,
    popularity_filter: &F,
    node_data: &mut NodePoiData<C>,
)
    requires
        forall|k: &str, v: &str| #[trigger] popularity_filter.requires((k, v)),
    ensures
        ({
            &&& poi_accepted(tags_view(tags@), *popularity_filter)
            &&& final(node_data).ids@ == old(node_data).ids@.push(id)
            &&& final(node_data).coords@ == old(node_data).coords@.insert(id, coord)
            &&& final(node_data).tags@ == old(node_data).tags@.insert(id, tags)
        }) || ({
            &&& poi_refused(tags_view(tags@), *popularity_filter)
            &&& *final(node_data) == *old(node_data)
        }),
{
    if is_poi_entity(&tags, popularity_filter) {
        node_data.ids.push(id);
        node_data.coords.insert(id, coord);
        node_data.tags.insert(id, tags);
    }
}

/// Records the way `id` with its node list and tags when it is one of
/// `all_needed_way_ids`; leaves `way_data` as it was otherwise.
pub fn collect_way(
    id: i64,
    refs: Vec<i64>,
    tags: Tags,
    all_needed_way_ids: &HashSet<i64>,
    way_data: &mut WayPassData,
)
    ensures
        all_needed_way_ids@.contains(id) ==> {
            &&& final(way_data).ids@ == old(way_data).ids@.push(id)
            &&& final(way_data).way_node_ids@ == old(way_data).way_node_ids@.insert(id, refs)
            &&& final(way_data).way_tags@ == old(way_data).way_tags@.insert(id, tags)
        },
        !all_needed_way_ids@.contains(id) ==> *final(way_data) == *old(way_data),
{
    if all_needed_way_ids.contains(&id) {
        way_data.ids.push(id);
        way_data.way_node_ids.insert(id, refs);
        way_data.way_tags.insert(id, tags);
    }
}

/// The ids of the members of kind `kind`, in order.
pub open spec fn member_ids_of_kind(members: Seq<(MemberKind, i64)>, kind: MemberKind) -> Seq<i64>
    decreases members.len(),
{
    if members.len() == 0 {
        Seq::empty()
    } else {
        let prev = member_ids_of_kind(members.drop_last(), kind);
        if members.last().0 == kind {
            prev.push(members.last().1)
        } else {
            prev
        }
    }
}

/// Records the relation `id` with its node members, way members (in member
/// order; other members are left out) and tags when its tags make it a
/// point of interest (see `is_poi_entity`); leaves `rel_data` as it was
/// otherwise.
pub fn collect_poi_relation<F: Fn(&str, &str) -> bool>(
    id: i64,
    members: &Vec<(MemberKind, i64)>,
    tags: Tags,
    popularity_filter: &F,
    rel_data: &mut RelationPassData,
)
    requires
        forall|k: &str, v: &str| #[trigger] popularity_filter.requires((k, v)),
    ensures
        ({
            &&& poi_accepted(tags_view(tags@), *popularity_filter)
            &&& final(rel_data).ids@ == old(rel_data).ids@.push(id)
            &&& final(rel_data).member_node_ids@.dom() == old(rel_data).member_node_ids@.dom().insert(id)
            &&& final(rel_data).member_node_ids@[id]@ == member_ids_of_kind(members@, MemberKind::Node)
            &&& forall|k: i64| k != id && #[trigger] old(rel_data).member_node_ids@.contains_key(k)
                ==> final(rel_data).member_node_ids@[k] == old(rel_data).member_node_ids@[k]
            &&& final(rel_data).member_way_ids@.dom() == old(rel_data).member_way_ids@.dom().insert(id)
            &&& final(rel_data).member_way_ids@[id]@ == member_ids_of_kind(members@, MemberKind::Way)
            &&& forall|k: i64| k != id && #[trigger] old(rel_data).member_way_ids@.contains_key(k)
                ==> final(rel_data).member_way_ids@[k] == old(rel_data).member_way_ids@[k]
            &&& final(rel_data).tags@ == old(rel_data).tags@.insert(id, tags)
        }) || ({
            &&& poi_refused(tags_view(tags@), *popularity_filter)
            &&& *final(rel_data) == *old(rel_data)
        }),
{
    if !is_poi_entity(&tags, popularity_filter) {
        return;
    }
    let mut member_nodes: Vec<i64> = Vec::new();
    let mut member_ways: Vec<i64> = Vec::new();
    for i in 0..members.len()
        invariant
            member_nodes@ == member_ids_of_kind(members@.take(i as int), MemberKind::Node),
            member_ways@ == member_ids_of_kind(members@.take(i as int), MemberKind::Way),
    {
        let (kind, member_id) = members[i];
        proof {
            assert(members@.take(i + 1).drop_last() =~= members@.take(i as int));
            assert(members@.take(i + 1).last() == (kind, member_id));
        }
        match kind {
            MemberKind::Node => {
                member_nodes.push(member_id);
            },
            MemberKind::Way => {
                member_ways.push(member_id);
            },
            _ => {},
        }
    }
    proof {
        assert(members@.take(members@.len() as int) =~= members@);
    }
    rel_data.ids.push(id);
    rel_data.member_node_ids.insert(id, member_nodes);
    rel_data.member_way_ids.insert(id, member_ways);
    rel_data.tags.insert(id, tags);
}

/// For each way of `way_data.ids`, in order, that has a node list: the way
/// and the known coordinates of its nodes (the input of its centroid).
pub open spec fn way_centroid_inputs<C>(
    ids: Seq<i64>,
    way_node_ids: Map<i64, Vec<i64>>,
    coords: Map<i64, C>,
) -> Seq<(i64, Seq<C>)>
    decreases ids.len(),
{
    if ids.len() == 0 {
        Seq::empty()
    } else {
        let prev = way_centroid_inputs(ids.drop_last(), way_node_ids, coords);
        let w = ids.last();
        if way_node_ids.contains_key(w) {
            prev.push((w, known_coords(way_node_ids[w]@, coords)))
        } else {
            prev
        }
    }
}

/// The view of a way with its node coordinates.
pub open spec fn way_nodes_view<C>(w: (i64, Vec<C>)) -> (i64, Seq<C>) {
    (w.0, w.1@)
}

/// For each way of `way_data`, in order, that has a node list: the way id
/// and the known coordinates of its nodes, from which its centroid is
/// computed.
pub fn compute_way_centroids<C: Copy>(way_data: &WayPassData, nodes_coords: &HashMap<i64, C>) -> (r:
    Vec<(i64, Vec<C>)>)
    ensures
        r@.map_values(|w: (i64, Vec<C>)| way_nodes_view(w)) == way_centroid_inputs(
            way_data.ids@,
            way_data.way_node_ids@,
            nodes_coords@,
        ),
{
    let mut out: Vec<(i64, Vec<C>)> = Vec::new();
    let ghost ids = way_data.ids@;
    for i in 0..way_data.ids.len()
        invariant
            ids == way_data.ids@,
            out@.map_values(|w: (i64, Vec<C>)| way_nodes_view(w)) == way_centroid_inputs(
                ids.take(i as int),
                way_data.way_node_ids@,
                nodes_coords@,
            ),
    {
        let way_id = way_data.ids[i];
        proof {
            assert(ids.take(i + 1).drop_last() =~= ids.take(i as int));
        }
        let ghost before = out@;
        match way_data.way_node_ids.get(&way_id) {
            Some(node_ids) => {
                let coords = known_node_coords(node_ids, nodes_coords);
                out.push((way_id, coords));
                proof {
                    assert(out@.map_values(|w: (i64, Vec<C>)| way_nodes_view(w)) =~= before.map_values(
                        |w: (i64, Vec<C>)| way_nodes_view(w),
                    ).push((way_id, coords@)));
                }
            },
            None => {},
        }
    }
    proof {
        assert(ids.take(ids.len() as int) =~= ids);
    }
    out
}

/// For each id of `ids`, in order, with both a coordinate and tags: the
/// node, its coordinate and its tags.
pub open spec fn poi_node_inputs<C>(ids: Seq<i64>, coords: Map<i64, C>, tags: Map<i64, Tags>) -> Seq<
    (i64, C, TagsView),
>
    decreases ids.len(),
{
    if ids.len() == 0 {
        Seq::empty()
    } else {
        let prev = poi_node_inputs(ids.drop_last(), coords, tags);
        let n = ids.last();
        if coords.contains_key(n) && tags.contains_key(n) {
            prev.push((n, coords[n], tags_view(tags[n]@)))
        } else {
            prev
        }
    }
}

/// The point-of-interest nodes to convert, in the order of `node_data.ids`:
/// each node that has both a coordinate and tags.
pub fn convert_poi_nodes<C: Copy>(node_data: &NodePoiData<C>) -> (r: Vec<PoiNode<C>>)
    ensures
        views(r@) == poi_node_inputs(node_data.ids@, node_data.coords@, node_data.tags@),
{
    let mut out: Vec<PoiNode<C>> = Vec::new();
    let ghost ids = node_data.ids@;
    for i in 0..node_data.ids.len()
        invariant
            ids == node_data.ids@,
            views(out@) == poi_node_inputs(ids.take(i as int), node_data.coords@, node_data.tags@),
    {
        let node_id = node_data.ids[i];
        proof {
            assert(ids.take(i + 1).drop_last() =~= ids.take(i as int));
        }
        match (node_data.coords.get(&node_id), node_data.tags.get(&node_id)) {
            (Some(coord), Some(owned_tags)) => {
                let entry = PoiNode { id: node_id, coord: *coord, tags: clone_tags(owned_tags) };
                let ghost before = out@;
                out.push(entry);
                proof {
                    assert(views(out@) =~= views(before).push(entry@));
                }
            },
            _ => {},
        }
    }
    proof {
        assert(ids.take(ids.len() as int) =~= ids);
    }
    out
}

/// For each id of `ids`, in order, that is in `poi_ids` and has tags: the
/// way and its tags.
pub open spec fn poi_way_inputs(ids: Seq<i64>, poi_ids: Set<i64>, tags: Map<i64, Tags>) -> Seq<
    (i64, TagsView),
>
    decreases ids.len(),
{
    if ids.len() == 0 {
        Seq::empty()
    } else {
        let prev = poi_way_inputs(ids.drop_last(), poi_ids, tags);
        let w = ids.last();
        if poi_ids.contains(w) && tags.contains_key(w) {
            prev.push((w, tags_view(tags[w]@)))
        } else {
            prev
        }
    }
}

/// The point-of-interest ways to convert, in the order of `way_data.ids`:
/// each way that is in `poi_way_ids` and has tags.
pub fn convert_poi_ways(way_data: &WayPassData, poi_way_ids: &HashSet<i64>) -> (r: Vec<PoiWay>)
    ensures
        views(r@) == poi_way_inputs(way_data.ids@, poi_way_ids@, way_data.way_tags@),
{
    let mut out: Vec<PoiWay> = Vec::new();
    let ghost ids = way_data.ids@;
    for i in 0..way_data.ids.len()
        invariant
            ids == way_data.ids@,
            views(out@) == poi_way_inputs(ids.take(i as int), poi_way_ids@, way_data.way_tags@),
    {
        let way_id = way_data.ids[i];
        proof {
            assert(ids.take(i + 1).drop_last() =~= ids.take(i as int));
        }
        if poi_way_ids.contains(&way_id) {
            match way_data.way_tags.get(&way_id) {
                Some(owned_tags) => {
                    let entry = PoiWay { id: way_id, tags: clone_tags(owned_tags) };
                    let ghost before = out@;
                    out.push(entry);
                    proof {
                        assert(views(out@) =~= views(before).push(entry@));
                    }
                },
                None => {},
            }
        }
    }
    proof {
        assert(ids.take(ids.len() as int) =~= ids);
    }
    out
}

/// The member list recorded for `id`, or no members.
pub open spec fn members_or_none(members: Map<i64, Vec<i64>>, id: i64) -> Seq<i64> {
    if members.contains_key(id) {
        members[id]@
    } else {
        Seq::empty()
    }
}

/// For each id of `ids`, in order, that has tags: the relation, its node
/// members, its way members (none when unrecorded) and its tags.
pub open spec fn poi_relation_inputs(
    ids: Seq<i64>,
    member_nodes: Map<i64, Vec<i64>>,
    member_ways: Map<i64, Vec<i64>>,
    tags: Map<i64, Tags>,
) -> Seq<(i64, Seq<i64>, Seq<i64>, TagsView)>
    decreases ids.len(),
{
    if ids.len() == 0 {
        Seq::empty()
    } else {
        let prev = poi_relation_inputs(ids.drop_last(), member_nodes, member_ways, tags);
        let r = ids.last();
        if tags.contains_key(r) {
            prev.push(
                (
                    r,
                    members_or_none(member_nodes, r),
                    members_or_none(member_ways, r),
                    tags_view(tags[r]@),
                ),
            )
        } else {
            prev
        }
    }
}

/// A copy of the member list recorded for `id`, or an empty list.
fn members_of(members: &HashMap<i64, Vec<i64>>, id: i64) -> (r: Vec<i64>)
    ensures
        r@ == members_or_none(members@, id),
{
    match members.get(&id) {
        Some(list) => list.clone(),
        None => Vec::new(),
    }
}

/// The point-of-interest relations to convert, in the order of
/// `rel_data.ids`: each relation that has tags, with its node and way
/// members (empty when not recorded).
pub fn convert_poi_relations(rel_data: &RelationPassData) -> (r: Vec<PoiRelation>)
    ensures
        views(r@) == poi_relation_inputs(
            rel_data.ids@,
            rel_data.member_node_ids@,
            rel_data.member_way_ids@,
            rel_data.tags@,
        ),
{
    let mut out: Vec<PoiRelation> = Vec::new();
    let ghost ids = rel_data.ids@;
    for i in 0..rel_data.ids.len()
        invariant
            ids == rel_data.ids@,
            views(out@) == poi_relation_inputs(
                ids.take(i as int),
                rel_data.member_node_ids@,
                rel_data.member_way_ids@,
                rel_data.tags@,
            ),
    {
        let rel_id = rel_data.ids[i];
        proof {
            assert(ids.take(i + 1).drop_last() =~= ids.take(i as int));
        }
        match rel_data.tags.get(&rel_id) {
            Some(owned_tags) => {
                let entry = PoiRelation {
                    id: rel_id,
                    member_nodes: members_of(&rel_data.member_node_ids, rel_id),
                    member_ways: members_of(&rel_data.member_way_ids, rel_id),
                    tags: clone_tags(owned_tags),
                };
                let ghost before = out@;
                out.push(entry);
                proof {
                    assert(views(out@) =~= views(before).push(entry@));
                }
            },
            None => {},
        }
    }
    proof {
        assert(ids.take(ids.len() as int) =~= ids);
    }
    out
}

/// Each recorded point-of-interest node has a coordinate and tags.
pub open spec fn nodes_recorded<C>(ids: Seq<i64>, coords: Map<i64, C>, tags: Map<i64, Tags>) -> bool {
    forall|k: int|
        0 <= k < ids.len() ==> coords.contains_key(#[trigger] ids[k]) && tags.contains_key(ids[k])
}

/// Recording a node the way `collect_poi_node` does keeps every recorded
/// node with a coordinate and tags.
pub proof fn lemma_collecting_keeps_nodes_recorded<C>(
    ids: Seq<i64>,
    coords: Map<i64, C>,
    tags: Map<i64, Tags>,
    id: i64,
    coord: C,
    node_tags: Tags,
)
    requires
        nodes_recorded(ids, coords, tags),
    ensures
        nodes_recorded(ids.push(id), coords.insert(id, coord), tags.insert(id, node_tags)),
{
    assert forall|k: int| 0 <= k < ids.push(id).len() implies coords.insert(
        id,
        coord,
    ).contains_key(#[trigger] ids.push(id)[k]) && tags.insert(id, node_tags).contains_key(
        ids.push(id)[k],
    ) by {
        if k < ids.len() {
            assert(ids.push(id)[k] == ids[k]);
        }
    }
}

/// Every recorded point-of-interest node is converted: when each recorded
/// node has a coordinate and tags, `convert_poi_nodes` yields one entry per
/// recorded node, in the recorded order, with that node's coordinate and
/// tags.
pub proof fn lemma_recorded_nodes_all_converted<C>(
    ids: Seq<i64>,
    coords: Map<i64, C>,
    tags: Map<i64, Tags>,
)
    requires
        nodes_recorded(ids, coords, tags),
    ensures
        poi_node_inputs(ids, coords, tags).len() == ids.len(),
        forall|k: int|
            0 <= k < ids.len() ==> #[trigger] poi_node_inputs(ids, coords, tags)[k] == (
                ids[k],
                coords[ids[k]],
                tags_view(tags[ids[k]]@),
            ),
    decreases ids.len(),
{
    if ids.len() > 0 {
        let init = ids.drop_last();
        assert forall|k: int| 0 <= k < init.len() implies coords.contains_key(#[trigger] init[k])
            && tags.contains_key(init[k]) by {
            assert(init[k] == ids[k]);
        }
        lemma_recorded_nodes_all_converted(init, coords, tags);
        assert(coords.contains_key(ids[ids.len() - 1]));
        assert forall|k: int| 0 <= k < ids.len() implies #[trigger] poi_node_inputs(
            ids,
            coords,
            tags,
        )[k] == (ids[k], coords[ids[k]], tags_view(tags[ids[k]]@)) by {
            if k < init.len() {
                assert(init[k] == ids[k]);
            }
        }
    }
}

/// Each recorded point-of-interest relation has tags.
pub open spec fn relations_recorded(ids: Seq<i64>, tags: Map<i64, Tags>) -> bool {
    forall|k: int| 0 <= k < ids.len() ==> tags.contains_key(#[trigger] ids[k])
}

/// Every recorded point-of-interest relation is converted: when each
/// recorded relation has tags, `convert_poi_relations` yields one entry per
/// recorded relation, in the recorded order, with its members and tags.
pub proof fn lemma_recorded_relations_all_converted(
    ids: Seq<i64>,
    member_nodes: Map<i64, Vec<i64>>,
    member_ways: Map<i64, Vec<i64>>,
    tags: Map<i64, Tags>,
)
    requires
        relations_recorded(ids, tags),
    ensures
        poi_relation_inputs(ids, member_nodes, member_ways, tags).len() == ids.len(),
        forall|k: int|
            0 <= k < ids.len() ==> #[trigger] poi_relation_inputs(
                ids,
                member_nodes,
                member_ways,
                tags,
            )[k] == (
                ids[k],
                members_or_none(member_nodes, ids[k]),
                members_or_none(member_ways, ids[k]),
                tags_view(tags[ids[k]]@),
            ),
    decreases ids.len(),
{
    if ids.len() > 0 {
        let init = ids.drop_last();
        assert forall|k: int| 0 <= k < init.len() implies tags.contains_key(#[trigger] init[k]) by {
            assert(init[k] == ids[k]);
        }
        lemma_recorded_relations_all_converted(init, member_nodes, member_ways, tags);
        assert(tags.contains_key(ids[ids.len() - 1]));
        assert forall|k: int| 0 <= k < ids.len() implies #[trigger] poi_relation_inputs(
            ids,
            member_nodes,
            member_ways,
            tags,
        )[k] == (
            ids[k],
            members_or_none(member_nodes, ids[k]),
            members_or_none(member_ways, ids[k]),
            tags_view(tags[ids[k]]@),
        ) by {
            if k < init.len() {
                assert(init[k] == ids[k]);
            }
        }
    }
}

/// Recording a relation the way `collect_poi_relation` does keeps every
/// recorded relation with tags.
pub proof fn lemma_collecting_keeps_relations_recorded(
    ids: Seq<i64>,
    tags: Map<i64, Tags>,
    id: i64,
    rel_tags: Tags,
)
    requires
        relations_recorded(ids, tags),
    ensures
        relations_recorded(ids.push(id), tags.insert(id, rel_tags)),
{
    assert forall|k: int| 0 <= k < ids.push(id).len() implies tags.insert(
        id,
        rel_tags,
    ).contains_key(#[trigger] ids.push(id)[k]) by {
        if k < ids.len() {
            assert(ids.push(id)[k] == ids[k]);
        }
    }
}

/// Each recorded way has a node list.
pub open spec fn ways_recorded(ids: Seq<i64>, way_node_ids: Map<i64, Vec<i64>>) -> bool {
    forall|k: int| 0 <= k < ids.len() ==> way_node_ids.contains_key(#[trigger] ids[k])
}

/// Recording a way the way `collect_way` does keeps every recorded way with
/// a node list.
pub proof fn lemma_collecting_keeps_ways_recorded(
    ids: Seq<i64>,
    way_node_ids: Map<i64, Vec<i64>>,
    id: i64,
    refs: Vec<i64>,
)
    requires
        ways_recorded(ids, way_node_ids),
    ensures
        ways_recorded(ids.push(id), way_node_ids.insert(id, refs)),
{
    assert forall|k: int| 0 <= k < ids.push(id).len() implies way_node_ids.insert(
        id,
        refs,
    ).contains_key(#[trigger] ids.push(id)[k]) by {
        if k < ids.len() {
            assert(ids.push(id)[k] == ids[k]);
        }
    }
}

/// Every recorded way gets a centroid input: when each recorded way has a
/// node list, `compute_way_centroids` yields one entry per recorded way, in
/// the recorded order, with the known coordinates of its nodes.
pub proof fn lemma_recorded_ways_all_get_centroid_inputs<C>(
    ids: Seq<i64>,
    way_node_ids: Map<i64, Vec<i64>>,
    coords: Map<i64, C>,
)
    requires
        ways_recorded(ids, way_node_ids),
    ensures
        way_centroid_inputs(ids, way_node_ids, coords).len() == ids.len(),
        forall|k: int|
            0 <= k < ids.len() ==> #[trigger] way_centroid_inputs(ids, way_node_ids, coords)[k] == (
                ids[k],
                known_coords(way_node_ids[ids[k]]@, coords),
            ),
    decreases ids.len(),
{
    if ids.len() > 0 {
        let init = ids.drop_last();
        assert forall|k: int| 0 <= k < init.len() implies way_node_ids.contains_key(
            #[trigger] init[k],
        ) by {
            assert(init[k] == ids[k]);
        }
        lemma_recorded_ways_all_get_centroid_inputs(init, way_node_ids, coords);
        assert(way_node_ids.contains_key(ids[ids.len() - 1]));
        assert forall|k: int| 0 <= k < ids.len() implies #[trigger] way_centroid_inputs(
            ids,
            way_node_ids,
            coords,
        )[k] == (ids[k], known_coords(way_node_ids[ids[k]]@, coords)) by {
            if k < init.len() {
                assert(init[k] == ids[k]);
            }
        }
    }
}

/// The recorded point-of-interest nodes are exactly the keys of both maps:
/// a node has a coordinate and tags if and only if it was recorded.
pub open spec fn nodes_keyed_by_ids<C>(ids: Seq<i64>, coords: Map<i64, C>, tags: Map<i64, Tags>) -> bool {
    &&& coords.dom() == ids.to_set()
    &&& tags.dom() == ids.to_set()
}

/// The recorded ways are exactly the keys of both maps, and every recorded
/// way is one of the needed ways.
pub open spec fn ways_keyed_by_ids(
    ids: Seq<i64>,
    way_node_ids: Map<i64, Vec<i64>>,
    way_tags: Map<i64, Tags>,
    needed: Set<i64>,
) -> bool {
    &&& way_node_ids.dom() == ids.to_set()
    &&& way_tags.dom() == ids.to_set()
    &&& ids.to_set().subset_of(needed)
}

/// The recorded point-of-interest relations are exactly the keys of the
/// three maps.
pub open spec fn relations_keyed_by_ids(
    ids: Seq<i64>,
    member_nodes: Map<i64, Vec<i64>>,
    member_ways: Map<i64, Vec<i64>>,
    tags: Map<i64, Tags>,
) -> bool {
    &&& member_nodes.dom() == ids.to_set()
    &&& member_ways.dom() == ids.to_set()
    &&& tags.dom() == ids.to_set()
}

/// Empty collections of recorded entities are keyed by their (no) ids.
pub proof fn lemma_empty_pass_data_keyed<C>(needed: Set<i64>)
    ensures
        nodes_keyed_by_ids(Seq::<i64>::empty(), Map::<i64, C>::empty(), Map::<i64, Tags>::empty()),
        ways_keyed_by_ids(
            Seq::<i64>::empty(),
            Map::<i64, Vec<i64>>::empty(),
            Map::<i64, Tags>::empty(),
            needed,
        ),
        relations_keyed_by_ids(
            Seq::<i64>::empty(),
            Map::<i64, Vec<i64>>::empty(),
            Map::<i64, Vec<i64>>::empty(),
            Map::<i64, Tags>::empty(),
        ),
{
    assert(Seq::<i64>::empty().to_set() =~= Set::<i64>::empty());
    assert(Map::<i64, C>::empty().dom() =~= Set::<i64>::empty());
    assert(Map::<i64, Tags>::empty().dom() =~= Set::<i64>::empty());
    assert(Map::<i64, Vec<i64>>::empty().dom() =~= Set::<i64>::empty());
}

/// Recording a node as `collect_poi_node` does keeps the maps' keys equal to
/// the recorded nodes.
pub proof fn lemma_collecting_keeps_node_keys<C>(
    ids: Seq<i64>,
    coords: Map<i64, C>,
    tags: Map<i64, Tags>,
    id: i64,
    coord: C,
    node_tags: Tags,
)
    requires
        nodes_keyed_by_ids(ids, coords, tags),
    ensures
        nodes_keyed_by_ids(ids.push(id), coords.insert(id, coord), tags.insert(id, node_tags)),
{
    ids.lemma_push_to_set_commute(id);
    assert(coords.insert(id, coord).dom() =~= ids.push(id).to_set());
    assert(tags.insert(id, node_tags).dom() =~= ids.push(id).to_set());
}

/// Recording a way as `collect_way` does (only a needed one) keeps the
/// maps' keys equal to the recorded ways, all of them needed.
pub proof fn lemma_collecting_keeps_way_keys(
    ids: Seq<i64>,
    way_node_ids: Map<i64, Vec<i64>>,
    way_tags: Map<i64, Tags>,
    needed: Set<i64>,
    id: i64,
    refs: Vec<i64>,
    tags: Tags,
)
    requires
        ways_keyed_by_ids(ids, way_node_ids, way_tags, needed),
        needed.contains(id),
    ensures
        ways_keyed_by_ids(
            ids.push(id),
            way_node_ids.insert(id, refs),
            way_tags.insert(id, tags),
            needed,
        ),
{
    ids.lemma_push_to_set_commute(id);
    assert(way_node_ids.insert(id, refs).dom() =~= ids.push(id).to_set());
    assert(way_tags.insert(id, tags).dom() =~= ids.push(id).to_set());
}

/// Recording a relation as `collect_poi_relation` does keeps the maps'
/// keys equal to the recorded relations.
pub proof fn lemma_collecting_keeps_relation_keys(
    ids: Seq<i64>,
    member_nodes: Map<i64, Vec<i64>>,
    member_ways: Map<i64, Vec<i64>>,
    tags: Map<i64, Tags>,
    id: i64,
    nodes: Vec<i64>,
    ways: Vec<i64>,
    rel_tags: Tags,
)
    requires
        relations_keyed_by_ids(ids, member_nodes, member_ways, tags),
    ensures
        relations_keyed_by_ids(
            ids.push(id),
            member_nodes.insert(id, nodes),
            member_ways.insert(id, ways),
            tags.insert(id, rel_tags),
        ),
{
    ids.lemma_push_to_set_commute(id);
    assert(member_nodes.insert(id, nodes).dom() =~= ids.push(id).to_set());
    assert(member_ways.insert(id, ways).dom() =~= ids.push(id).to_set());
    assert(tags.insert(id, rel_tags).dom() =~= ids.push(id).to_set());
}

/// A tag list's content is each (key, value) pair's characters, in order,
/// with nothing left out.
pub proof fn lemma_tags_view_entries(tags: Seq<(String, String)>)
    ensures
        tags_view(tags).len() == tags.len(),
        forall|i: int| 0 <= i < tags.len() ==> #[trigger] tags_view(tags)[i] == (tags[i].0@, tags[i].1@),
{
}

/// One recorded way is handed to the converter, with its whole tag list,
/// exactly when it is a point-of-interest way and has tags.
pub proof fn lemma_poi_way_single(w: i64, poi_ids: Set<i64>, tags: Map<i64, Tags>)
    ensures
        poi_way_inputs(seq![w], poi_ids, tags) == if poi_ids.contains(w) && tags.contains_key(w) {
            seq![(w, tags[w]@.map_values(|t: (String, String)| (t.0@, t.1@)))]
        } else {
            Seq::<(i64, TagsView)>::empty()
        },
{
    assert(seq![w].drop_last() =~= Seq::<i64>::empty());
    assert(seq![w].last() == w);
    assert(poi_way_inputs(Seq::<i64>::empty(), poi_ids, tags) =~= Seq::<(i64, TagsView)>::empty());
    assert(Seq::<(i64, TagsView)>::empty().push((w, tags_view(tags[w]@))) =~= seq![
        (w, tags[w]@.map_values(|t: (String, String)| (t.0@, t.1@))),
    ]);
}

/// The ways handed over for two id lists one after the other are those of
/// the first list followed by those of the second.
pub proof fn lemma_poi_ways_concat(a: Seq<i64>, b: Seq<i64>, poi_ids: Set<i64>, tags: Map<i64, Tags>)
    ensures
        poi_way_inputs(a + b, poi_ids, tags) == poi_way_inputs(a, poi_ids, tags) + poi_way_inputs(
            b,
            poi_ids,
            tags,
        ),
    decreases b.len(),
{
    if b.len() == 0 {
        assert(a + b =~= a);
        assert(poi_way_inputs(a, poi_ids, tags) + Seq::<(i64, TagsView)>::empty() =~= poi_way_inputs(
            a,
            poi_ids,
            tags,
        ));
    } else {
        lemma_poi_ways_concat(a, b.drop_last(), poi_ids, tags);
        assert((a + b).drop_last() =~= a + b.drop_last());
        assert((a + b).last() == b.last());
        assert(poi_way_inputs(a + b, poi_ids, tags) =~= poi_way_inputs(a, poi_ids, tags)
            + poi_way_inputs(b, poi_ids, tags));
    }
}

/// One recorded node is handed to the converter, with its coordinate and
/// whole tag list, exactly when it has both.
pub proof fn lemma_poi_node_single<C>(n: i64, coords: Map<i64, C>, tags: Map<i64, Tags>)
    ensures
        poi_node_inputs(seq![n], coords, tags) == if coords.contains_key(n) && tags.contains_key(n) {
            seq![(n, coords[n], tags[n]@.map_values(|t: (String, String)| (t.0@, t.1@)))]
        } else {
            Seq::<(i64, C, TagsView)>::empty()
        },
{
    assert(seq![n].drop_last() =~= Seq::<i64>::empty());
    assert(seq![n].last() == n);
    assert(poi_node_inputs(Seq::<i64>::empty(), coords, tags) =~= Seq::<(i64, C, TagsView)>::empty());
    assert(Seq::<(i64, C, TagsView)>::empty().push((n, coords[n], tags_view(tags[n]@))) =~= seq![
        (n, coords[n], tags[n]@.map_values(|t: (String, String)| (t.0@, t.1@))),
    ]);
}

/// The nodes handed over for two id lists one after the other are those of
/// the first list followed by those of the second.
pub proof fn lemma_poi_nodes_concat<C>(
    a: Seq<i64>,
    b: Seq<i64>,
    coords: Map<i64, C>,
    tags: Map<i64, Tags>,
)
    ensures
        poi_node_inputs(a + b, coords, tags) == poi_node_inputs(a, coords, tags) + poi_node_inputs(
            b,
            coords,
            tags,
        ),
    decreases b.len(),
{
    if b.len() == 0 {
        assert(a + b =~= a);
        assert(poi_node_inputs(a, coords, tags) + Seq::<(i64, C, TagsView)>::empty()
            =~= poi_node_inputs(a, coords, tags));
    } else {
        lemma_poi_nodes_concat(a, b.drop_last(), coords, tags);
        assert((a + b).drop_last() =~= a + b.drop_last());
        assert((a + b).last() == b.last());
        assert(poi_node_inputs(a + b, coords, tags) =~= poi_node_inputs(a, coords, tags)
            + poi_node_inputs(b, coords, tags));
    }
}

/// One recorded relation is handed to the converter, with its node members,
/// way members (none when unrecorded) and whole tag list, exactly when it
/// has tags.
pub proof fn lemma_poi_relation_single(
    r: i64,
    member_nodes: Map<i64, Vec<i64>>,
    member_ways: Map<i64, Vec<i64>>,
    tags: Map<i64, Tags>,
)
    ensures
        poi_relation_inputs(seq![r], member_nodes, member_ways, tags) == if tags.contains_key(r) {
            seq![
                (
                    r,
                    if member_nodes.contains_key(r) {
                        member_nodes[r]@
                    } else {
                        Seq::<i64>::empty()
                    },
                    if member_ways.contains_key(r) {
                        member_ways[r]@
                    } else {
                        Seq::<i64>::empty()
                    },
                    tags[r]@.map_values(|t: (String, String)| (t.0@, t.1@)),
                ),
            ]
        } else {
            Seq::<(i64, Seq<i64>, Seq<i64>, TagsView)>::empty()
        },
{
    assert(seq![r].drop_last() =~= Seq::<i64>::empty());
    assert(seq![r].last() == r);
    assert(poi_relation_inputs(Seq::<i64>::empty(), member_nodes, member_ways, tags) =~= Seq::<
        (i64, Seq<i64>, Seq<i64>, TagsView),
    >::empty());
    let e = (
        r,
        members_or_none(member_nodes, r),
        members_or_none(member_ways, r),
        tags_view(tags[r]@),
    );
    assert(Seq::<(i64, Seq<i64>, Seq<i64>, TagsView)>::empty().push(e) =~= seq![e]);
    assert(tags_view(tags[r]@) =~= tags[r]@.map_values(|t: (String, String)| (t.0@, t.1@)));
}

/// The relations handed over for two id lists one after the other are those
/// of the first list followed by those of the second.
pub proof fn lemma_poi_relations_concat(
    a: Seq<i64>,
    b: Seq<i64>,
    member_nodes: Map<i64, Vec<i64>>,
    member_ways: Map<i64, Vec<i64>>,
    tags: Map<i64, Tags>,
)
    ensures
        poi_relation_inputs(a + b, member_nodes, member_ways, tags) == poi_relation_inputs(
            a,
            member_nodes,
            member_ways,
            tags,
        ) + poi_relation_inputs(b, member_nodes, member_ways, tags),
    decreases b.len(),
{
    if b.len() == 0 {
        assert(a + b =~= a);
        assert(poi_relation_inputs(a, member_nodes, member_ways, tags) + Seq::<
            (i64, Seq<i64>, Seq<i64>, TagsView),
        >::empty() =~= poi_relation_inputs(a, member_nodes, member_ways, tags));
    } else {
        lemma_poi_relations_concat(a, b.drop_last(), member_nodes, member_ways, tags);
        assert((a + b).drop_last() =~= a + b.drop_last());
        assert((a + b).last() == b.last());
        assert(poi_relation_inputs(a + b, member_nodes, member_ways, tags) =~= poi_relation_inputs(
            a,
            member_nodes,
            member_ways,
            tags,
        ) + poi_relation_inputs(b, member_nodes, member_ways, tags));
    }
}

/// One way gets a centroid input, the known coordinates of its node list,
/// exactly when it has a node list.
pub proof fn lemma_way_centroid_single<C>(w: i64, way_node_ids: Map<i64, Vec<i64>>, coords: Map<i64, C>)
    ensures
        way_centroid_inputs(seq![w], way_node_ids, coords) == if way_node_ids.contains_key(w) {
            seq![(w, known_coords(way_node_ids[w]@, coords))]
        } else {
            Seq::<(i64, Seq<C>)>::empty()
        },
{
    assert(seq![w].drop_last() =~= Seq::<i64>::empty());
    assert(seq![w].last() == w);
    assert(way_centroid_inputs(Seq::<i64>::empty(), way_node_ids, coords) =~= Seq::<
        (i64, Seq<C>),
    >::empty());
    assert(Seq::<(i64, Seq<C>)>::empty().push((w, known_coords(way_node_ids[w]@, coords)))
        =~= seq![(w, known_coords(way_node_ids[w]@, coords))]);
}

/// The centroid inputs for two way lists one after the other are those of
/// the first list followed by those of the second.
pub proof fn lemma_way_centroids_concat<C>(
    a: Seq<i64>,
    b: Seq<i64>,
    way_node_ids: Map<i64, Vec<i64>>,
    coords: Map<i64, C>,
)
    ensures
        way_centroid_inputs(a + b, way_node_ids, coords) == way_centroid_inputs(
            a,
            way_node_ids,
            coords,
        ) + way_centroid_inputs(b, way_node_ids, coords),
    decreases b.len(),
{
    if b.len() == 0 {
        assert(a + b =~= a);
        assert(way_centroid_inputs(a, way_node_ids, coords) + Seq::<(i64, Seq<C>)>::empty()
            =~= way_centroid_inputs(a, way_node_ids, coords));
    } else {
        lemma_way_centroids_concat(a, b.drop_last(), way_node_ids, coords);
        assert((a + b).drop_last() =~= a + b.drop_last());
        assert((a + b).last() == b.last());
        assert(way_centroid_inputs(a + b, way_node_ids, coords) =~= way_centroid_inputs(
            a,
            way_node_ids,
            coords,
        ) + way_centroid_inputs(b, way_node_ids, coords));
    }
}

/// One member contributes its id to the list of its own kind only.
pub proof fn lemma_member_ids_single(m: (MemberKind, i64), kind: MemberKind)
    ensures
        member_ids_of_kind(seq![m], kind) == if m.0 == kind {
            seq![m.1]
        } else {
            Seq::<i64>::empty()
        },
{
    assert(seq![m].drop_last() =~= Seq::<(MemberKind, i64)>::empty());
    assert(seq![m].last() == m);
    assert(member_ids_of_kind(Seq::<(MemberKind, i64)>::empty(), kind) =~= Seq::<i64>::empty());
    assert(Seq::<i64>::empty().push(m.1) =~= seq![m.1]);
}

/// The member ids of a kind for two member lists one after the other are
/// those of the first list followed by those of the second.
pub proof fn lemma_member_ids_concat(
    a: Seq<(MemberKind, i64)>,
    b: Seq<(MemberKind, i64)>,
    kind: MemberKind,
)
    ensures
        member_ids_of_kind(a + b, kind) == member_ids_of_kind(a, kind) + member_ids_of_kind(b, kind),
    decreases b.len(),
{
    if b.len() == 0 {
        assert(a + b =~= a);
        assert(member_ids_of_kind(a, kind) + Seq::<i64>::empty() =~= member_ids_of_kind(a, kind));
    } else {
        lemma_member_ids_concat(a, b.drop_last(), kind);
        assert((a + b).drop_last() =~= a + b.drop_last());
        assert((a + b).last() == b.last());
        assert(member_ids_of_kind(a + b, kind) =~= member_ids_of_kind(a, kind) + member_ids_of_kind(
            b,
            kind,
        ));
    }
}

} // verus!
